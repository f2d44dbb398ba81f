use otp_input::{CursorBlink, Effects, OtpEvent, OtpState, MASK_CHAR};

fn focused_state(length: usize, value: &str) -> OtpState {
    OtpState::new(length).default_value(value)
}

#[test]
fn values_are_ascii_and_bounded_before_any_presentation() {
    let mut state = OtpState::new(4).default_value("a1３2-345");
    assert_eq!(state.value(), "1234");
    state.set_value("🙂６98a7");
    assert_eq!(state.value(), "987");
}

#[test]
fn native_replacements_respect_cell_ranges_and_zero_length() {
    for length in [0, 4] {
        let mut state = OtpState::new(length).default_value("12");
        let focused = true;
        state.replace_text_in_range(Some(0..1), "83", focused);
        assert_eq!(state.value(), if length == 0 { "" } else { "83" });
        if length > 0 {
            state.replace_and_mark_text_in_range(None, "🙂9", Some(1..3), focused);
            let mut adjusted = None;
            assert_eq!(
                state.text_for_range(1..2, &mut adjusted).as_deref(),
                Some("🙂")
            );
            assert_eq!(adjusted, Some(0..2), "UTF-16 ranges keep whole characters");
            state.set_value("4567");
            state.unmark_text(focused);
            assert_eq!(
                state.value(),
                "4567",
                "external sync cancels the old composition"
            );
        }
    }
}

#[test]
fn new_state_is_empty_and_enabled() {
    let state = OtpState::new(6);
    assert_eq!(state.value(), "");
    assert!(state.is_empty());
    assert_eq!(state.len(), 6);
    assert_eq!(state.active_index(), 0);
    assert!(!state.is_masked());
    assert!(state.accepts_text_input(true));
    assert!(!state.accepts_text_input(false));
}

#[test]
fn default_value_keeps_only_as_many_digits_as_boxes() {
    let state = OtpState::new(3).default_value("9 8 7 6 5");
    assert_eq!(state.value(), "987");
    assert_eq!(state.active_index(), 0);
    let state = OtpState::new(0).default_value("123");
    assert_eq!(state.value(), "");
}

#[test]
fn set_value_redraws_only_on_change() {
    let mut state = OtpState::new(4);
    let e = state.set_value("12");
    assert!(e.notify);
    assert!(e.events.is_empty());
    let e = state.set_value("x1y2");
    assert!(!e.notify);
    assert_eq!(state.value(), "12");
}

#[test]
fn set_value_keeps_the_selected_box() {
    let mut state = focused_state(4, "1234");
    state.select_box(2);
    state.set_value("5");
    assert_eq!(state.active_index(), 2);
    assert_eq!(state.value(), "5");
}

#[test]
fn set_value_ends_a_composition_with_a_redraw() {
    let mut state = focused_state(4, "");
    state.replace_and_mark_text_in_range(None, "7", None, true);
    assert_eq!(state.marked_text_range(), Some(0..1));
    let e = state.set_value("");
    assert!(e.notify, "ending the composition redraws even with an unchanged value");
    assert_eq!(state.marked_text_range(), None);
}

#[test]
fn display_char_masks_digits() {
    let state = focused_state(4, "12");
    assert_eq!(state.display_char(0), Some('1'));
    assert_eq!(state.display_char(1), Some('2'));
    assert_eq!(state.display_char(2), None);
    let state = state.masked(true);
    assert!(state.is_masked());
    assert_eq!(state.display_char(0), Some(MASK_CHAR));
    assert_eq!(state.display_char(1), Some('\u{2022}'));
    assert_eq!(state.display_char(2), None);
}

#[test]
fn set_masked_redraws() {
    let mut state = focused_state(4, "12");
    let e = state.set_masked(true);
    assert!(e.notify);
    assert!(state.is_masked());
    assert_eq!(state.display_char(0), Some(MASK_CHAR));
}

#[test]
fn select_box_clamps_focuses_and_pauses_the_cursor() {
    let mut state = focused_state(4, "");
    let e = state.select_box(10);
    assert_eq!(state.active_index(), 3);
    assert!(e.focus);
    assert_eq!(e.cursor, CursorBlink::Pause);
    assert!(e.notify);
    assert!(e.events.is_empty());
}

#[test]
fn select_box_does_nothing_without_boxes_or_when_disabled() {
    let mut state = OtpState::new(0);
    let e = state.select_box(1);
    assert_eq!(state.active_index(), 0);
    assert!(!e.focus && !e.notify);
    let mut state = OtpState::new(4);
    state.sync_disabled(true);
    let e = state.select_box(2);
    assert_eq!(state.active_index(), 0);
    assert!(!e.focus && !e.notify);
}

#[test]
fn moves_stay_within_the_boxes() {
    let mut state = focused_state(3, "");
    state.move_left();
    assert_eq!(state.active_index(), 0);
    state.move_right();
    state.move_right();
    assert_eq!(state.active_index(), 2);
    state.move_right();
    assert_eq!(state.active_index(), 2);
    state.move_left();
    assert_eq!(state.active_index(), 1);
    state.move_right();
    assert_eq!(state.active_index(), 2);
}

#[test]
fn paste_fills_from_the_selected_box_and_completes() {
    let mut state = focused_state(4, "");
    let e = state.paste("12-34", true);
    assert_eq!(state.value(), "1234");
    assert_eq!(state.active_index(), 3);
    assert_eq!(e.events, vec![OtpEvent::Change, OtpEvent::Complete]);
    assert!(e.focus);
    assert_eq!(e.cursor, CursorBlink::Pause);
    assert!(e.notify);
}

#[test]
fn paste_overwrites_from_the_selected_box() {
    let mut state = focused_state(4, "1234");
    state.select_box(1);
    let e = state.paste("9", true);
    assert_eq!(state.value(), "1934");
    assert_eq!(state.active_index(), 2);
    assert_eq!(e.events, vec![OtpEvent::Change, OtpEvent::Complete]);
}

#[test]
fn typing_past_the_value_closes_the_gap() {
    let mut state = focused_state(4, "12");
    state.select_box(3);
    let e = state.paste("5", true);
    assert_eq!(state.value(), "125");
    assert_eq!(state.active_index(), 3);
    assert_eq!(e.events, vec![OtpEvent::Change]);
}

#[test]
fn typing_stops_at_the_last_box() {
    let mut state = focused_state(4, "");
    state.select_box(2);
    state.paste("789", true);
    assert_eq!(state.value(), "78");
    assert_eq!(state.active_index(), 3);
}

#[test]
fn text_without_digits_is_ignored() {
    let mut state = focused_state(4, "12");
    let e = state.paste("abc", true);
    assert_eq!(state.value(), "12");
    assert!(e.events.is_empty());
    assert!(!e.notify);
}

#[test]
fn unfocused_input_takes_no_text() {
    let mut state = focused_state(4, "12");
    let e = state.paste("3", false);
    assert_eq!(state.value(), "12");
    assert!(e.events.is_empty());
    let e = state.delete(false);
    assert_eq!(state.value(), "12");
    assert!(e.events.is_empty());
}

#[test]
fn disabled_input_takes_no_text() {
    let mut state = focused_state(4, "12");
    state.sync_disabled(true);
    assert!(!state.accepts_text_input(true));
    state.paste("3", true);
    state.replace_text_in_range(None, "5", true);
    assert_eq!(state.value(), "12");
    assert_eq!(state.selected_text_range(false, true), None);
    assert_eq!(state.selected_text_range(true, true), Some(0..1));
}

#[test]
fn delete_removes_the_selected_digit() {
    let mut state = focused_state(4, "1234");
    state.select_box(1);
    let e = state.delete(true);
    assert_eq!(state.value(), "134");
    assert_eq!(state.active_index(), 1);
    assert_eq!(e.events, vec![OtpEvent::Change]);
    assert_eq!(e.cursor, CursorBlink::Pause);
    assert!(!e.focus);
}

#[test]
fn delete_past_the_value_still_reports_a_change() {
    let mut state = focused_state(4, "1");
    state.select_box(2);
    let e = state.delete(true);
    assert_eq!(state.value(), "1");
    assert_eq!(e.events, vec![OtpEvent::Change]);
}

#[test]
fn backspace_removes_the_digit_before_an_empty_box() {
    let mut state = focused_state(4, "12");
    state.select_box(2);
    let e = state.backspace(true);
    assert_eq!(state.value(), "1");
    assert_eq!(state.active_index(), 1);
    assert!(e.focus);
    assert_eq!(e.events, vec![OtpEvent::Change]);
}

#[test]
fn backspace_on_a_filled_box_removes_it() {
    let mut state = focused_state(4, "1234");
    state.select_box(0);
    state.backspace(true);
    assert_eq!(state.value(), "234");
    assert_eq!(state.active_index(), 0);
}

#[test]
fn focus_and_blur_report_events() {
    let mut state = focused_state(4, "");
    let e = state.on_focus();
    assert_eq!(e.events, vec![OtpEvent::Focus]);
    assert_eq!(e.cursor, CursorBlink::Start);
    state.replace_and_mark_text_in_range(None, "1", None, true);
    let e = state.on_blur();
    assert_eq!(e.events, vec![OtpEvent::Blur]);
    assert_eq!(e.cursor, CursorBlink::Stop);
    assert_eq!(state.marked_text_range(), None);
}

#[test]
fn input_text_is_the_selected_digit() {
    let mut state = focused_state(4, "12");
    let mut adjusted = None;
    assert_eq!(state.text_for_range(0..1, &mut adjusted).as_deref(), Some("1"));
    assert_eq!(adjusted, Some(0..1));
    assert_eq!(state.selected_text_range(false, true), Some(0..1));
    assert_eq!(state.text_length_utf16(), Some(1));
    state.select_box(3);
    assert_eq!(state.text_length_utf16(), Some(0));
    assert_eq!(state.selected_text_range(false, true), Some(0..0));
}

#[test]
fn replacing_the_selected_digit_types_over_it() {
    let mut state = focused_state(4, "1234");
    state.select_box(1);
    let e = state.replace_text_in_range(None, "7", true);
    assert_eq!(state.value(), "1734");
    assert_eq!(state.active_index(), 2);
    assert_eq!(e.events, vec![OtpEvent::Change, OtpEvent::Complete]);
}

#[test]
fn replacing_with_nothing_deletes() {
    let mut state = focused_state(4, "1234");
    state.select_box(2);
    let e = state.replace_text_in_range(None, "", true);
    assert_eq!(state.value(), "124");
    assert_eq!(e.events, vec![OtpEvent::Change]);
}

#[test]
fn composition_marks_and_selects_in_utf16() {
    let mut state = focused_state(4, "");
    state.replace_and_mark_text_in_range(None, "🙂9", None, true);
    assert_eq!(state.marked_text_range(), Some(0..3));
    assert_eq!(state.selected_text_range(false, true), Some(3..3));
    assert_eq!(state.text_length_utf16(), Some(3));
    state.replace_and_mark_text_in_range(None, "12", Some(5..0), true);
    let mut adjusted = None;
    assert_eq!(state.text_for_range(0..10, &mut adjusted).as_deref(), Some("12"));
    assert_eq!(adjusted, Some(0..2));
    assert_eq!(state.selected_text_range(false, true), Some(2..2));
}

#[test]
fn unmark_commits_the_composition() {
    let mut state = focused_state(4, "");
    state.replace_and_mark_text_in_range(None, "4a2", None, true);
    assert_eq!(state.value(), "");
    let e = state.unmark_text(true);
    assert_eq!(state.value(), "42");
    assert_eq!(state.active_index(), 2);
    assert_eq!(state.marked_text_range(), None);
    assert!(e.notify);
    assert_eq!(e.events, vec![OtpEvent::Change]);
    let e = state.unmark_text(true);
    assert!(!e.notify);
}

#[test]
fn replacing_within_a_composition_commits_it() {
    let mut state = focused_state(4, "");
    state.replace_and_mark_text_in_range(None, "12", None, true);
    // The marked range covers all of "12", so the edit replaces it.
    let e = state.replace_text_in_range(None, "3", true);
    assert_eq!(state.value(), "3");
    assert_eq!(state.active_index(), 1);
    assert_eq!(state.marked_text_range(), None);
    assert!(e.notify);
}

#[test]
fn input_handling_follows_the_selected_cell() {
    let mut state = focused_state(4, "");
    state.select_box(1);
    assert!(state.handles_input(false, None, true));
    assert!(state.handles_input(false, Some(1), true));
    assert!(!state.handles_input(false, Some(2), true));
    assert!(!state.handles_input(true, None, true));
    assert!(!state.handles_input(false, None, false));
    assert!(!OtpState::new(0).handles_input(false, None, true));
    assert!(state.takes_focus(false));
    assert!(!state.takes_focus(true));
    assert!(!OtpState::new(0).takes_focus(false));
}

#[test]
fn pressing_a_cell_selects_it_unless_disabled() {
    let mut state = focused_state(4, "");
    let e = state.press_cell(2, true);
    assert_eq!(state.active_index(), 0);
    assert!(!e.focus);
    let e = state.press_cell(2, false);
    assert_eq!(state.active_index(), 2);
    assert!(e.focus);
}

#[test]
fn disabling_ends_a_composition() {
    let mut state = focused_state(4, "");
    state.replace_and_mark_text_in_range(None, "5", None, true);
    state.sync_disabled(false);
    assert_eq!(state.marked_text_range(), Some(0..1));
    state.sync_disabled(true);
    assert_eq!(state.marked_text_range(), None);
}

#[test]
fn effects_compose_in_order() {
    let first = Effects::redraw();
    let none = Effects::none();
    let both = first.followed_by(none);
    assert!(both.notify);
    assert_eq!(both.cursor, CursorBlink::Unchanged);
    assert!(both.events.is_empty());
}

#[test]
fn backspace_focuses_the_input_and_then_deletes() {
    let mut state = OtpState::new(4).default_value("1");
    let e = state.backspace(false);
    assert!(e.focus);
    assert_eq!(state.value(), "");
    assert_eq!(e.events, vec![OtpEvent::Change]);
}

#[test]
fn backspace_without_boxes_does_nothing() {
    let mut state = OtpState::new(0);
    let e = state.backspace(true);
    assert!(!e.focus && !e.notify);
    assert!(e.events.is_empty());
    state.assure_well_formed();
}
