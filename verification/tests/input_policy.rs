use std::ops::Range;
use zui::input_policy::{
    byte_offset_from_utf16, deletion_range, deletion_range_in, focus_after_touch,
    touch_requests_keyboard, utf16_len, DeleteDirection, FocusTarget,
};

fn units(text: &str) -> usize {
    text.encode_utf16().count()
}

fn document_range(text: &str) -> Range<usize> {
    0..units(text)
}

#[test]
fn deletes_an_emoji_as_one_grapheme_in_both_directions() {
    let text = "a😀b";
    let full_range = document_range(text);

    assert_eq!(
        deletion_range(&(3..3), DeleteDirection::Backward, text, full_range.clone()),
        Some(1..3)
    );
    assert_eq!(
        deletion_range(&(1..1), DeleteDirection::Forward, text, full_range),
        Some(1..3)
    );
}

#[test]
fn deletes_a_combining_sequence_as_one_grapheme_in_both_directions() {
    let text = "ae\u{301}b";
    let full_range = document_range(text);

    assert_eq!(
        deletion_range(&(3..3), DeleteDirection::Backward, text, full_range.clone()),
        Some(1..3)
    );
    assert_eq!(
        deletion_range(&(1..1), DeleteDirection::Forward, text, full_range),
        Some(1..3)
    );
}

#[test]
fn deletes_a_zwj_sequence_as_one_grapheme_in_both_directions() {
    let text = "x👩\u{200d}💻y";
    let full_range = document_range(text);

    assert_eq!(
        deletion_range(&(6..6), DeleteDirection::Backward, text, full_range.clone()),
        Some(1..6)
    );
    assert_eq!(
        deletion_range(&(1..1), DeleteDirection::Forward, text, full_range),
        Some(1..6)
    );
}

#[test]
fn preserves_explicit_selection_and_rejects_unaligned_caret() {
    let text = "😀";
    let full_range = document_range(text);

    assert_eq!(
        deletion_range(&(0..2), DeleteDirection::Backward, text, full_range.clone()),
        Some(0..2)
    );
    assert_eq!(
        deletion_range(&(1..1), DeleteDirection::Backward, text, full_range.clone()),
        None
    );
    assert_eq!(
        deletion_range(&(1..1), DeleteDirection::Forward, text, full_range),
        None
    );
}

#[test]
fn caret_inside_a_cluster_or_outside_the_range_deletes_nothing() {
    let text = "ae\u{301}b";
    for direction in [DeleteDirection::Backward, DeleteDirection::Forward] {
        assert_eq!(deletion_range(&(12..12), direction, text, 10..14), None);
        assert_eq!(deletion_range(&(9..9), direction, text, 10..14), None);
        assert_eq!(deletion_range(&(15..15), direction, text, 10..14), None);
        // The range does not describe the text.
        assert_eq!(deletion_range(&(11..11), direction, text, 10..13), None);
        assert_eq!(deletion_range(&(11..11), direction, text, 14..10), None);
    }
}

#[test]
fn document_offset_moves_with_the_range() {
    let text = "ae\u{301}b";
    assert_eq!(
        deletion_range(&(13..13), DeleteDirection::Backward, text, 10..14),
        Some(11..13)
    );
    assert_eq!(
        deletion_range(&(13..13), DeleteDirection::Forward, text, 10..14),
        Some(13..14)
    );
    assert_eq!(deletion_range(&(10..10), DeleteDirection::Backward, text, 10..14), None);
    assert_eq!(deletion_range(&(14..14), DeleteDirection::Forward, text, 10..14), None);
    // An inverted selection counts as a caret at its start.
    let inverted = Range { start: 11, end: 10 };
    assert_eq!(
        deletion_range(&inverted, DeleteDirection::Backward, text, 10..14),
        Some(10..11)
    );
}

#[test]
fn both_directions_take_the_same_cluster() {
    let text = "a\r\n👨‍👩‍👧‍👦e\u{301}\u{302}🇷🇺🇸🇹z";
    let range = document_range(text);
    let mut caret = 0;
    let mut clusters = 0;
    while let Some(taken) =
        deletion_range(&(caret..caret), DeleteDirection::Forward, text, range.clone())
    {
        assert_eq!(taken.start, caret);
        assert_eq!(
            deletion_range(&(taken.end..taken.end), DeleteDirection::Backward, text, range.clone()),
            Some(taken.clone())
        );
        caret = taken.end;
        clusters += 1;
    }
    assert_eq!(caret, range.end);
    assert_eq!(clusters, 7);
}

#[test]
fn given_pieces_are_respected() {
    let text = "abc";
    let pieces = vec![(0, "ab"), (2, "c")];
    assert_eq!(
        deletion_range_in(&(2..2), DeleteDirection::Backward, text, 0..3, &pieces),
        Some(0..2)
    );
    assert_eq!(
        deletion_range_in(&(1..1), DeleteDirection::Backward, text, 0..3, &pieces),
        None
    );
    assert_eq!(
        deletion_range_in(&(2..2), DeleteDirection::Forward, text, 0..3, &pieces),
        Some(2..3)
    );
}

#[test]
fn utf16_offsets_map_to_character_boundaries() {
    let text = "aé€😀z";
    assert_eq!(utf16_len(text), 6);
    let expected = [Some(0), Some(1), Some(3), Some(6), None, Some(10), Some(11), None];
    for (target, offset) in expected.iter().enumerate() {
        assert_eq!(byte_offset_from_utf16(text, target), *offset);
    }
    assert_eq!(byte_offset_from_utf16("", 0), Some(0));
    assert_eq!(byte_offset_from_utf16("", 1), None);
}

#[test]
fn blank_tap_does_not_request_keyboard() {
    assert!(!touch_requests_keyboard(None, None));
    assert!(!touch_requests_keyboard(Some(false), None));
}

#[test]
fn editor_tap_requests_keyboard_without_waiting_for_paint() {
    assert!(touch_requests_keyboard(Some(true), None));
    assert!(touch_requests_keyboard(None, Some(true)));
    assert!(touch_requests_keyboard(Some(false), Some(true)));
}

#[test]
fn release_blur_overrides_press_focus() {
    assert!(!touch_requests_keyboard(Some(true), Some(false)));
}

#[test]
fn touch_focus_parks_on_the_canvas() {
    let canvas = FocusTarget::Canvas { tab_index: -1 };
    assert_eq!(focus_after_touch(None, None), canvas);
    assert_eq!(focus_after_touch(Some(true), None), FocusTarget::Input);
    assert_eq!(focus_after_touch(Some(false), Some(true)), FocusTarget::Input);
    assert_eq!(focus_after_touch(Some(false), None), canvas);
    assert_eq!(focus_after_touch(Some(true), Some(false)), canvas);
}
