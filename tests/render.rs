use meowcro::editor::TextEditor;
use meowcro::frame::{status_line, update_and_render_to_buffer};
use meowcro::terminal::{render, Char, Highlight, RenderCommand, TermColor, TermLineLayoutSettings};
use meowcro::ui::DrawResult;
use meowcro::unicode::{is_newline, move_grapheme, string_width, TERM_TAB_WIDTH};
use meowcro::widgets_impl::UiEvent;

fn cells(text: &str) -> Vec<Char> {
    text.chars().map(|c| Char::new_text(c, false)).collect()
}

#[test]
fn unchanged_frame_emits_only_cursor_placement() {
    let frame = cells("abcdefgh");
    let out = render(4, Some((1, 1)), &frame, &frame);
    assert_eq!(
        out,
        vec![
            RenderCommand::SetForeground(TermColor::Reset),
            RenderCommand::SetBackground(TermColor::Reset),
            RenderCommand::Show,
            RenderCommand::MoveTo(1, 1),
        ]
    );
    let hidden = render(4, None, &frame, &frame);
    assert_eq!(hidden.last(), Some(&RenderCommand::Hide));
}

#[test]
fn empty_previous_frame_redraws_everything() {
    let frame = cells("ab");
    let out = render(80, None, &frame, &[]);
    assert_eq!(
        out,
        vec![
            RenderCommand::SetForeground(TermColor::Reset),
            RenderCommand::SetBackground(TermColor::Reset),
            RenderCommand::MoveTo(0, 0),
            RenderCommand::Print('a'),
            RenderCommand::Print('b'),
            RenderCommand::Hide,
        ]
    );
}

#[test]
fn changed_cell_is_written_with_colour_and_move() {
    let old = cells("abcd");
    let mut new = cells("abcd");
    new[2] = Char::new_text('X', true);
    let out = render(80, None, &new, &old);
    assert_eq!(
        out,
        vec![
            RenderCommand::SetForeground(TermColor::Reset),
            RenderCommand::SetBackground(TermColor::Reset),
            RenderCommand::MoveTo(2, 0),
            RenderCommand::SetForeground(TermColor::Black),
            RenderCommand::SetBackground(TermColor::Blue),
            RenderCommand::Print('X'),
            RenderCommand::Hide,
        ]
    );
}

#[test]
fn wide_character_forces_cursor_move() {
    let frame = vec![Char::new_text('\u{4E2D}', false), Char::new_text('a', false)];
    let out = render(80, None, &frame, &[]);
    assert_eq!(out[2], RenderCommand::MoveTo(0, 0));
    assert_eq!(out[3], RenderCommand::Print('\u{4E2D}'));
    assert_eq!(out[4], RenderCommand::MoveTo(2, 0));
    assert_eq!(out[5], RenderCommand::Print('a'));
}

#[test]
fn highlight_colours() {
    assert_eq!(Highlight::Status.get_color_background_crossterm(), TermColor::Grey);
    assert_eq!(Highlight::Gutter.get_color_foreground_crossterm(), TermColor::Yellow);
    assert_eq!(Highlight::Text.get_color_foreground_crossterm(), TermColor::Reset);
    assert_eq!(Char::new('q', Highlight::Gutter).color, Highlight::Gutter);
}

#[test]
fn widths_of_strings() {
    assert_eq!(string_width(&['a', '\u{4E2D}', '\t', '\u{301}'], 4), 7);
    assert_eq!(string_width(&['\t'], TERM_TAB_WIDTH), 0);
    assert!(is_newline('\u{2028}'));
    assert!(!is_newline('a'));
}

#[test]
fn grapheme_moves_on_strings() {
    let s = "a\u{301}bc";
    assert_eq!(move_grapheme(1, 0, s), 3);
    assert_eq!(move_grapheme(2, 0, s), 4);
    assert_eq!(move_grapheme(9, 0, s), 5);
    assert_eq!(move_grapheme(-1, 4, s), 3);
    assert_eq!(move_grapheme(-5, 4, s), 0);
}

#[test]
fn buffers_combine() {
    let empty = <(Vec<Char>, Option<(usize, usize)>) as DrawResult>::empty(3, 2);
    assert_eq!(empty.0.len(), 6);
    assert_eq!(empty.1, None);
    let top = (cells("ab"), None);
    let bottom = (cells("cd"), Some((1, 0)));
    let v = top.combine_vertical(bottom, 2, 1, 2);
    assert_eq!(v.0, cells("abcd"));
    assert_eq!(v.1, Some((1, 1)));
    let left = (cells("ab"), None);
    let right = (cells("xyz"), Some((0, 1)));
    let h = left.combine_horizontal(right, 2, 1, 2);
    assert_eq!(h.0, cells("axby"));
    assert_eq!(h.1, Some((1, 1)));
}

#[test]
fn status_line_text() {
    assert_eq!(status_line("notes.txt", true, 4, 0), " notes.txt* 5:1");
    assert_eq!(status_line("a", false, 0, 12), " a 1:13");
}

#[test]
fn full_frame_has_one_cell_per_position() {
    let mut e = TextEditor::new("hello\nworld", TermLineLayoutSettings::new(4), 4, false);
    let (cells, cursor) = update_and_render_to_buffer(&mut e, 20, 5, "f", false, UiEvent::Nothing);
    assert_eq!(cells.len(), 100);
    assert_eq!(cursor, Some((3, 0)));
    let text: String = cells.iter().map(|c| c.c).collect();
    assert!(text.starts_with(" 1 hello"));
    assert!(text.ends_with(" f 1:1              "));
}

#[test]
fn unchanged_frame_with_combining_mark_writes_nothing() {
    let frame = cells("e\u{301}xy");
    let out = render(80, None, &frame, &frame);
    assert_eq!(
        out,
        vec![
            RenderCommand::SetForeground(TermColor::Reset),
            RenderCommand::SetBackground(TermColor::Reset),
            RenderCommand::Hide,
        ]
    );
}
