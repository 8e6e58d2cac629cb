use meowcro::editor::TextEditor;
use meowcro::terminal::TermLineLayoutSettings;

fn editor(text: &str, newly_loaded: bool) -> TextEditor<TermLineLayoutSettings> {
    TextEditor::new(text, TermLineLayoutSettings::new(4), 4, newly_loaded)
}

#[test]
fn insert_then_undo_returns_to_saved_empty_document() {
    let mut e = editor("", true);
    e.set_saved();
    e.insert_string(0, "hello", true, true, true);
    assert_eq!(e.to_string(), "hello");
    assert!(e.has_changed_since_save());
    e.undo();
    assert_eq!(e.to_string(), "");
    assert_eq!(e.cursor, 0);
    assert!(!e.has_changed_since_save());
}

#[test]
fn vertical_move_up_keeps_target_column() {
    let mut e = editor("ab\ncd", false);
    e.set_cursor_pos(0, 1, false);
    assert_eq!(e.cursor, 3);
    assert_eq!(e.get_cursor_column(), 0);
    e.move_cursor_vertical(-1, false, false);
    assert_eq!(e.cursor, 0);
}

#[test]
fn cut_selection_removes_selected_text() {
    let mut e = editor("hello world", false);
    e.add_selection();
    e.move_cursor_horizontal(5, true, true);
    assert_eq!(e.selection_anchor, Some(0));
    assert_eq!(e.cursor, 5);
    assert_eq!(e.cut_selection(), Some("hello".to_string()));
    assert_eq!(e.to_string(), " world");
    assert_eq!(e.cursor, 0);
    assert_eq!(e.selection_anchor, None);
}

#[test]
fn history_capacity_keeps_most_recent_actions() {
    let mut e = editor("", true);
    e.history_size = 2;
    e.insert_character_at_cursor('a');
    e.insert_character_at_cursor('b');
    e.insert_character_at_cursor('c');
    assert_eq!(e.history.len(), 2);
    assert_eq!(e.current_history, 2);
    e.undo();
    e.undo();
    assert_eq!(e.to_string(), "a");
    e.undo();
    assert_eq!(e.to_string(), "a");
}

#[test]
fn undo_all_restores_start_and_redo_all_restores_edits() {
    let mut e = editor("one two", false);
    e.insert_string(3, " and", true, true, true);
    e.remove_range(0, 4, true, true, true);
    e.insert_string(0, "X", true, true, true);
    let edited = e.to_string();
    assert_eq!(edited, "Xand two");
    e.undo();
    e.undo();
    e.undo();
    assert_eq!(e.to_string(), "one two");
    e.redo();
    e.redo();
    e.redo();
    assert_eq!(e.to_string(), edited);
}

#[test]
fn saved_state_survives_eviction() {
    let mut e = editor("base", false);
    e.history_size = 2;
    e.insert_string(4, "1", true, true, true);
    e.set_saved();
    e.insert_string(5, "2", true, true, true);
    e.insert_string(6, "3", true, true, true);
    assert_eq!(e.to_string(), "base123");
    assert_eq!(e.save_anchor, Some(0));
    e.discard_changes();
    assert_eq!(e.to_string(), "base1");
    assert!(!e.has_changed_since_save());
}

#[test]
fn discard_changes_redoes_forward_to_save() {
    let mut e = editor("", false);
    e.insert_string(0, "ab", true, true, true);
    e.set_saved();
    e.undo();
    assert_eq!(e.to_string(), "");
    e.discard_changes();
    assert_eq!(e.to_string(), "ab");
}

#[test]
fn selection_range_is_normalised() {
    let mut e = editor("hello world", false);
    e.move_cursor_horizontal(7, false, true);
    e.add_selection();
    e.move_cursor_horizontal(-4, true, true);
    assert_eq!(e.get_selection_range(), Some((3, 7)));
    e.move_cursor_horizontal(6, true, true);
    assert_eq!(e.get_selection_range(), Some((7, 9)));
    assert_eq!(e.get_selection(), Some("or".to_string()));
    e.clear_selection();
    assert_eq!(e.get_selection_range(), None);
}

#[test]
fn horizontal_motion_steps_over_whole_clusters() {
    let mut e = editor("e\u{301}x\u{1F468}\u{200D}\u{1F469}y", false);
    e.move_cursor_horizontal(1, false, true);
    assert_eq!(e.cursor, 3);
    e.move_cursor_horizontal(1, false, true);
    assert_eq!(e.cursor, 4);
    e.move_cursor_horizontal(1, false, true);
    assert_eq!(e.cursor, 15);
    e.move_cursor_horizontal(-1, false, true);
    assert_eq!(e.cursor, 4);
    e.move_cursor_horizontal(-2, false, true);
    assert_eq!(e.cursor, 0);
    e.move_cursor_horizontal(-1, false, true);
    assert_eq!(e.cursor, 0);
}

#[test]
fn columns_round_trip_on_plain_line() {
    let text = "hello world\nnext";
    let mut e = editor(text, false);
    for x in 0..11usize {
        e.cursor = x;
        let column = e.get_cursor_column();
        assert_eq!(column, x);
        e.move_cursor_to_column(column, false, false);
        assert_eq!(e.cursor, x);
    }
}

#[test]
fn column_past_line_end_snaps_to_end() {
    let mut e = editor("abc\nde", false);
    e.move_cursor_to_column(10, false, false);
    assert_eq!(e.cursor, 3);
    e.set_cursor_pos(10, 1, false);
    assert_eq!(e.cursor, 6);
    e.set_cursor_pos(0, 7, false);
    assert_eq!(e.cursor, 6);
}

#[test]
fn wide_and_tab_columns() {
    let mut e = editor("\u{4E2D}\tx", false);
    e.cursor = 3;
    assert_eq!(e.get_cursor_column(), 2);
    e.cursor = 4;
    assert_eq!(e.get_cursor_column(), 6);
    assert_eq!(e.get_row_and_column(), (0, 2));
}

#[test]
fn word_motion_skips_runs() {
    let mut e = editor("foo  bar baz", false);
    e.move_cursor_horizontal_words(1, false, true);
    assert_eq!(e.cursor, 3);
    e.move_cursor_horizontal_words(1, false, true);
    assert_eq!(e.cursor, 8);
    e.move_cursor_horizontal_words(-1, false, true);
    assert_eq!(e.cursor, 5);
    e.move_cursor_horizontal_words(-1, false, true);
    assert_eq!(e.cursor, 0);
}

#[test]
fn line_start_and_end() {
    let mut e = editor("abc\ndef", false);
    e.move_cursor_horizontal(1, false, true);
    e.move_cursor_to_end_of_line(false, true);
    assert_eq!(e.cursor, 3);
    e.move_cursor_to_start_of_line(false, true);
    assert_eq!(e.cursor, 0);
    assert_eq!(e.target_column, 0);
    e.set_cursor_pos(1, 1, false);
    e.move_cursor_to_end_of_line(false, true);
    assert_eq!(e.cursor, 7);
}

#[test]
fn newline_keeps_indentation() {
    let mut e = editor("  ab", false);
    e.cursor = 4;
    e.insert_newline_at_cursor();
    assert_eq!(e.to_string(), "  ab\n  ");
    assert_eq!(e.cursor, 7);
    assert_eq!(e.get_current_line(), 1);
    assert_eq!(e.len_lines(), 2);
}

#[test]
fn backspace_and_delete_remove_clusters() {
    let mut e = editor("ae\u{301}b", false);
    e.cursor = 4;
    e.remove_character_or_selection_at_cursor(true);
    assert_eq!(e.to_string(), "ab");
    assert_eq!(e.cursor, 1);
    e.remove_character_or_selection_at_cursor(false);
    assert_eq!(e.to_string(), "a");
    e.insert_tab_at_cursor();
    assert_eq!(e.to_string(), "a\t");
    e.insert_string_at_cursor("xy");
    assert_eq!(e.to_string(), "a\txy");
}

#[test]
fn remove_shifts_cursor_after_range() {
    let mut e = editor("abcdef", false);
    e.cursor = 5;
    e.remove_range(1, 3, false, false, false);
    assert_eq!(e.to_string(), "adef");
    assert_eq!(e.cursor, 3);
    e.insert_string(0, "zz", false, false, false);
    assert_eq!(e.cursor, 5);
    assert_eq!(e.history.len(), 0);
}

#[test]
fn characters_around_cursor() {
    let mut e = editor("a\u{E9}b", false);
    e.cursor = 1;
    assert_eq!(e.get_character_under_cursor(), '\u{E9}');
    assert_eq!(e.get_character_in_front_of_cursor(), Some('a'));
    e.cursor = 0;
    assert_eq!(e.get_character_in_front_of_cursor(), None);
}

#[test]
fn scrolling_fits_viewport() {
    let text = (0..100).map(|i| format!("line {i}")).collect::<Vec<_>>().join("\n");
    let mut e = editor(&text, false);
    e.set_cursor_pos(0, 50, false);
    e.set_scroll(80, 20, 6, 6);
    assert_eq!(e.get_lines_scrolled(), 37);
    assert_eq!(e.get_relative_cursor_pos(), Some((0, 13)));
    e.set_scroll(80, 20, 6, 6);
    assert_eq!(e.get_lines_scrolled(), 37);
    e.scroll_vertically(-10);
    assert_eq!(e.get_lines_scrolled(), 27);
    assert_eq!(e.get_current_line(), 40);
    e.set_relative_cursor_pos(2, 3, false);
    assert_eq!(e.get_cursor_pos(), (2, 30));
    assert_eq!(e.get_first_visible_line(), 27);
    assert_eq!(e.get_columns_scrolled(), 0);
    assert_eq!(e.get_tab_width(), 4);
}

#[test]
fn new_file_starts_unsaved() {
    let e = editor("x", true);
    assert!(e.has_changed_since_save());
    let f = editor("x", false);
    assert!(!f.has_changed_since_save());
    assert_eq!(f.get_text().len_chars(), 1);
}

#[test]
fn column_round_trip_at_end_of_last_line() {
    let mut e = editor("ab", false);
    e.cursor = 2;
    let column = e.get_cursor_column();
    assert_eq!(column, 2);
    e.move_cursor_to_column(column, false, false);
    assert_eq!(e.cursor, 2);
    e.move_cursor_to_column(1, false, false);
    assert_eq!(e.cursor, 1);
}

#[test]
fn empty_requested_row_clamps_onto_it() {
    let mut e = editor("ab\n", false);
    e.set_cursor_pos(0, 1, false);
    assert_eq!(e.cursor, 3);
    assert_eq!(e.get_current_line(), 1);
}

#[test]
fn cursor_at_insertion_offset_moves_along() {
    let mut e = editor("abc", false);
    e.cursor = 1;
    e.insert_string(1, "XY", false, false, false);
    assert_eq!(e.to_string(), "aXYbc");
    assert_eq!(e.cursor, 3);
}

#[test]
fn undo_after_typing_at_cursor() {
    let mut e = editor("", true);
    e.set_saved();
    e.insert_string_at_cursor("hello");
    e.undo();
    assert_eq!(e.to_string(), "");
    assert_eq!(e.cursor, 0);
    assert!(!e.has_changed_since_save());
}

#[test]
fn word_motion_sets_and_keeps_anchor() {
    let mut e = editor("foo bar", false);
    e.move_cursor_horizontal_words(1, true, true);
    assert_eq!(e.selection_anchor, Some(0));
    assert_eq!(e.cursor, 3);
    assert_eq!(e.target_column, 3);
    e.move_cursor_horizontal_words(1, true, true);
    assert_eq!(e.selection_anchor, Some(0));
    assert_eq!(e.cursor, 7);
    e.move_cursor_horizontal_words(-1, false, false);
    assert_eq!(e.selection_anchor, None);
    assert_eq!(e.target_column, 7);
}

#[test]
fn column_move_saves_reached_column() {
    let mut e = editor("abc\nd", false);
    e.move_cursor_to_column(2, false, true);
    assert_eq!(e.cursor, 2);
    assert_eq!(e.target_column, 2);
    e.move_cursor_vertical(1, false, false);
    assert_eq!(e.cursor, 5);
    assert_eq!(e.target_column, 2);
}

#[test]
fn undo_and_redo_at_history_ends_change_nothing() {
    let mut e = editor("abc", false);
    e.cursor = 2;
    e.add_selection();
    e.undo();
    e.redo();
    assert_eq!(e.cursor, 2);
    assert_eq!(e.selection_anchor, Some(2));
    assert_eq!(e.to_string(), "abc");
}
