use meowcro::frame::Region;
use meowcro::terminal::Char;
use meowcro::ui::{Align, Drawable, Interactive, Layout, Restriction, Widget};
use meowcro::widgets::{LineNumbers, TextLine};
use meowcro::widgets_impl::{UiEvent, UiReaction};

type Buffer = (Vec<Char>, Option<(usize, usize)>);

#[test]
fn status_bar_and_editor_split_the_screen() {
    let numbers = LineNumbers::new(0, 3, 1, false);
    let bar = Region::Gutter(numbers);
    let text = TextLine::new("abc");
    let main = Region::Status(text);
    let layout = Layout::new(80, 24)
        .add_item::<Buffer, UiEvent, Vec<UiReaction>>(&main, Align::Bottom, Restriction::Shrink)
        .add_item::<Buffer, UiEvent, Vec<UiReaction>>(&bar, Align::Left, Restriction::Grow);
    assert_eq!(layout.items.len(), 2);
    assert_eq!((layout.items[0].x, layout.items[0].y), (0, 23));
    assert_eq!((layout.items[0].width, layout.items[0].height), (80, 1));
    assert_eq!((layout.items[1].x, layout.items[1].y), (0, 0));
    assert_eq!((layout.items[1].width, layout.items[1].height), (3, 23));
    assert_eq!(layout.space, (3, 0, 80, 23));
}

#[test]
fn three_row_status_bar_leaves_editor_twenty_one_rows() {
    let e = meowcro::editor::TextEditor::new("x", meowcro::terminal::TermLineLayoutSettings::new(4), 4, false);
    let rows = [
        Region::Status(TextLine::new("one")),
        Region::Status(TextLine::new("two")),
        Region::Status(TextLine::new("three")),
    ];
    let main = Region::Editor(&e);
    let layout = Layout::new(80, 24)
        .add_item::<Buffer, UiEvent, Vec<UiReaction>>(&rows[0], Align::Bottom, Restriction::Shrink)
        .add_item::<Buffer, UiEvent, Vec<UiReaction>>(&rows[1], Align::Bottom, Restriction::Shrink)
        .add_item::<Buffer, UiEvent, Vec<UiReaction>>(&rows[2], Align::Bottom, Restriction::Shrink)
        .add_item::<Buffer, UiEvent, Vec<UiReaction>>(&main, Align::Left, Restriction::Grow);
    let bar_height: u32 = layout.items[..3].iter().map(|i| i.height).sum();
    assert_eq!(bar_height, 3);
    assert_eq!(layout.items[2].y, 21);
    assert_eq!((layout.items[3].x, layout.items[3].y), (0, 0));
    assert_eq!((layout.items[3].width, layout.items[3].height), (80, 21));
    let (cells, cursor) = layout.draw::<Buffer>();
    assert_eq!(cells.len(), 80 * 24);
    assert_eq!(cursor, Some((0, 0)));
}

#[test]
fn gutter_draws_numbers_and_tildes() {
    let numbers = LineNumbers::new(0, 2, 1, false);
    assert_eq!(numbers.width(3), 3);
    assert_eq!(numbers.width_number(3), 1);
    let (cells, cursor) = numbers.draw(3, 3);
    let text: String = cells.iter().map(|c| c.c).collect();
    assert_eq!(text, " 1  2  ~ ");
    assert_eq!(cursor, None);
    let relative = LineNumbers::new(0, 120, 2, true);
    assert_eq!(relative.width_number(5), 3);
    let (cells, _) = relative.draw(5, 3);
    let text: String = cells.iter().map(|c| c.c).collect();
    assert_eq!(text, "   1    2    1 ");
}

#[test]
fn text_line_pads_and_cuts() {
    let line = TextLine::new("abc");
    let (cells, _) = line.draw(5, 1);
    let text: String = cells.iter().map(|c| c.c).collect();
    assert_eq!(text, "abc  ");
    let (cells, _) = line.draw(2, 1);
    let text: String = cells.iter().map(|c| c.c).collect();
    assert_eq!(text, "ab");
    assert_eq!(line.minimum_size(10, 10), (3, 1));
    assert_eq!(line.maximum_size(10, 7), (10, 7));
    assert!(line.interact(&UiEvent::Nothing, 0, 0, 1, 1).is_empty());
}

#[test]
fn layout_collects_reactions() {
    let e = meowcro::editor::TextEditor::new("x", meowcro::terminal::TermLineLayoutSettings::new(4), 4, false);
    let main = Region::Editor(&e);
    let bar = Region::Status(TextLine::new("s"));
    let layout = Layout::new(10, 10)
        .add_item::<Buffer, UiEvent, Vec<UiReaction>>(&bar, Align::Bottom, Restriction::Shrink)
        .add_item::<Buffer, UiEvent, Vec<UiReaction>>(&main, Align::Top, Restriction::Grow);
    let reactions: Vec<UiReaction> = layout.interact(&UiEvent::Clicked(2, 3, false));
    assert_eq!(
        reactions,
        vec![UiReaction::FixScrol(10, 9), UiReaction::SetRelativeCursorPos(2, 3, false)]
    );
    let page = main.interact(&UiEvent::ScrollPage(true), 0, 0, 10, 9);
    assert_eq!(page, vec![UiReaction::FixScrol(10, 9), UiReaction::ScrollBy(-9)]);
    let outside = main.interact(&UiEvent::Clicked(20, 3, false), 0, 0, 10, 9);
    assert_eq!(outside, vec![UiReaction::FixScrol(10, 9)]);
}

#[test]
fn cursor_of_a_region_below_keeps_its_row() {
    let e = meowcro::editor::TextEditor::new("x", meowcro::terminal::TermLineLayoutSettings::new(4), 4, false);
    let main = Region::Editor(&e);
    let layout = Layout::new(80, 24).add_item::<Buffer, UiEvent, Vec<UiReaction>>(&main, Align::Bottom, Restriction::Shrink);
    let (cells, cursor) = layout.draw::<Buffer>();
    assert_eq!(cells.len(), 80 * 24);
    assert_eq!(cursor, Some((0, 0)));
}
