//! One interaction cycle: the regions of the screen, how they react to an
//! input, and the frame they draw afterwards.

use crate::document::line_count;
use crate::editor::{add_clamped, clamp_line, cursor_line_of, fit_scroll, TextEditor};
use crate::terminal::{Char, TermLineLayoutSettings, TerminalBuffer};
use crate::ui::{
    item_rect, shrink_space, splice, Align, DrawResult, DrawState, Drawable, Interactive, Layout,
    Restriction, Widget, MAX_EXTENT,
};
use crate::unicode::{seq_width, TERM_TAB_WIDTH};
use crate::widgets::{LineNumbers, TextLine};
use crate::widgets_impl::{digit_char, editor_reactions, fitted, status, UiEvent, UiReaction};
use vstd::prelude::*;

verus! {

/// One region of the editor's screen.
pub enum Region<'a> {
    Status(TextLine<'a>),
    Gutter(LineNumbers),
    Editor(&'a TextEditor<TermLineLayoutSettings>),
}

impl<'a> Drawable<TerminalBuffer> for Region<'a> {
    open spec fn spec_draw(&self, width: u32, height: u32) -> (Seq<Char>, Option<(usize, usize)>) {
        match self {
            Region::Status(t) => t.spec_draw(width, height),
            Region::Gutter(g) => g.spec_draw(width, height),
            Region::Editor(e) => e.spec_draw(width, height),
        }
    }

    open spec fn draw_ready(&self, width: u32, height: u32) -> bool {
        match self {
            Region::Status(t) => t.draw_ready(width, height),
            Region::Gutter(g) => g.draw_ready(width, height),
            Region::Editor(e) => e.draw_ready(width, height),
        }
    }

    fn draw(&self, width: u32, height: u32) -> (r: TerminalBuffer) {
        match self {
            Region::Status(t) => t.draw(width, height),
            Region::Gutter(g) => g.draw(width, height),
            Region::Editor(e) => e.draw(width, height),
        }
    }
}

impl<'a> Interactive<UiEvent, Vec<UiReaction>> for Region<'a> {
    open spec fn spec_interact(&self, input: &UiEvent, x: u32, y: u32, width: u32, height: u32) -> Seq<UiReaction> {
        match self {
            Region::Status(t) => t.spec_interact(input, x, y, width, height),
            Region::Gutter(g) => g.spec_interact(input, x, y, width, height),
            Region::Editor(e) => e.spec_interact(input, x, y, width, height),
        }
    }

    fn interact(&self, input: &UiEvent, x: u32, y: u32, width: u32, height: u32) -> (r: Vec<UiReaction>) {
        match self {
            Region::Status(t) => t.interact(input, x, y, width, height),
            Region::Gutter(g) => g.interact(input, x, y, width, height),
            Region::Editor(e) => e.interact(input, x, y, width, height),
        }
    }
}

impl<'a> Widget<TerminalBuffer, UiEvent, Vec<UiReaction>> for Region<'a> {
    open spec fn spec_minimum_size(&self, width: u32, height: u32) -> (u32, u32) {
        match self {
            Region::Status(t) => t.spec_minimum_size(width, height),
            Region::Gutter(g) => g.spec_minimum_size(width, height),
            Region::Editor(e) => e.spec_minimum_size(width, height),
        }
    }

    open spec fn spec_maximum_size(&self, width: u32, height: u32) -> (u32, u32) {
        match self {
            Region::Status(t) => t.spec_maximum_size(width, height),
            Region::Gutter(g) => g.spec_maximum_size(width, height),
            Region::Editor(e) => e.spec_maximum_size(width, height),
        }
    }

    fn minimum_size(&self, width: u32, height: u32) -> (r: (u32, u32)) {
        match self {
            Region::Status(t) => t.minimum_size(width, height),
            Region::Gutter(g) => g.minimum_size(width, height),
            Region::Editor(e) => e.minimum_size(width, height),
        }
    }

    fn maximum_size(&self, width: u32, height: u32) -> (r: (u32, u32)) {
        match self {
            Region::Status(t) => t.maximum_size(width, height),
            Region::Gutter(g) => g.maximum_size(width, height),
            Region::Editor(e) => e.maximum_size(width, height),
        }
    }
}

/// The decimal digits of `n`.
pub open spec fn decimal_of(n: nat) -> Seq<char>
    decreases n,
{
    if n < 10 {
        seq![digit_char(n)]
    } else {
        decimal_of(n / 10) + seq![digit_char(n % 10)]
    }
}

fn digit_str(d: u128) -> (r: &'static str)
    requires
        d < 10,
    ensures
        r@ == seq![digit_char(d as nat)],
{
    proof {
        reveal_strlit("0");
        reveal_strlit("1");
        reveal_strlit("2");
        reveal_strlit("3");
        reveal_strlit("4");
        reveal_strlit("5");
        reveal_strlit("6");
        reveal_strlit("7");
        reveal_strlit("8");
        reveal_strlit("9");
    }
    if d == 0 { "0" } else if d == 1 { "1" } else if d == 2 { "2" } else if d == 3 { "3" } else if d
        == 4 { "4" } else if d == 5 { "5" } else if d == 6 { "6" } else if d == 7 { "7" } else if d
        == 8 { "8" } else { "9" }
}

/// Appends the decimal digits of `n`.
pub fn push_decimal(out: &mut String, n: u128)
    ensures
        final(out)@ == old(out)@ + decimal_of(n as nat),
    decreases n,
{
    if n >= 10 {
        push_decimal(out, n / 10);
    }
    out.append(digit_str(n % 10));
    proof {
        if n >= 10 {
            assert(old(out)@ + decimal_of((n / 10) as nat) + seq![digit_char((n % 10) as nat)] =~= old(out)@
                + decimal_of(n as nat));
        } else {
            assert(n % 10 == n);
        }
    }
}

/// The status line: the file's name, a star when there are unsaved
/// changes, and the cursor's line and column counted from one.
pub open spec fn status_text(name: Seq<char>, changed: bool, row: nat, column: nat) -> Seq<char> {
    seq![' '] + name + (if changed { seq!['*'] } else { Seq::empty() }) + seq![' '] + decimal_of(row + 1)
        + seq![':'] + decimal_of(column + 1)
}

/// Builds the status line.
pub fn status_line(file_name: &str, changed: bool, row: usize, column: usize) -> (r: String)
    ensures
        r@ == status_text(file_name@, changed, row as nat, column as nat),
{
    proof {
        reveal_strlit(" ");
        reveal_strlit("*");
        reveal_strlit(":");
    }
    let mut s = String::from_str(" ");
    s.append(file_name);
    if changed {
        s.append("*");
    }
    s.append(" ");
    push_decimal(&mut s, row as u128 + 1);
    s.append(":");
    push_decimal(&mut s, column as u128 + 1);
    proof {
        assert(s@ =~= status_text(file_name@, changed, row as nat, column as nat));
    }
    s
}

type Editor = TextEditor<TermLineLayoutSettings>;

/// `e` with the cursor at `cursor` and the anchor `anchor`.
pub open spec fn moved_to(e: Editor, cursor: usize, anchor: Option<usize>) -> Editor {
    TextEditor {
        text: e.text,
        cursor,
        target_column: e.target_column,
        scroll_lines: e.scroll_lines,
        scroll_columns: e.scroll_columns,
        layout_settings: e.layout_settings,
        selection_anchor: anchor,
        history: e.history,
        save_anchor: e.save_anchor,
        current_history: e.current_history,
        history_size: e.history_size,
        tab_width: e.tab_width,
    }
}

/// `e` scrolled to `lines` and `columns`.
pub open spec fn scrolled_to(e: Editor, lines: usize, columns: usize) -> Editor {
    TextEditor {
        text: e.text,
        cursor: e.cursor,
        target_column: e.target_column,
        scroll_lines: lines,
        scroll_columns: columns,
        layout_settings: e.layout_settings,
        selection_anchor: e.selection_anchor,
        history: e.history,
        save_anchor: e.save_anchor,
        current_history: e.current_history,
        history_size: e.history_size,
        tab_width: e.tab_width,
    }
}

/// The margin kept around the cursor when the scroll is fitted.
pub const SCROLL_MARGIN: usize = 6;

/// `a + b`, kept within a `usize`.
pub open spec fn sat_add(a: usize, b: usize) -> usize {
    if a + b > usize::MAX { usize::MAX } else { (a + b) as usize }
}

/// The editor after one reaction is applied to it.
pub open spec fn after_reaction(e: Editor, r: UiReaction) -> Editor {
    match r {
        UiReaction::ScrollBy(n) => scrolled_to(
            moved_to(
                e,
                e.spec_column_position(
                    clamp_line(
                        cursor_line_of(e.chars(), e.motion_start(n > 0, false) as nat) + n,
                        line_count(e.chars()),
                    ),
                    e.target_column,
                ) as usize,
                None,
            ),
            add_clamped(e.scroll_lines, n),
            e.scroll_columns,
        ),
        UiReaction::FixScrol(w, h) => scrolled_to(
            e,
            fit_scroll(e.scroll_lines, e.spec_cursor_line() as usize, h, SCROLL_MARGIN),
            fit_scroll(e.scroll_columns, e.spec_cursor_column(), w, SCROLL_MARGIN),
        ),
        UiReaction::SetRelativeCursorPos(x, y, select) => moved_to(
            e,
            e.spec_pointed(sat_add(x, e.scroll_columns), sat_add(y, e.scroll_lines)) as usize,
            e.anchor_after(select),
        ),
    }
}

/// The editor after the reactions `rs` are applied to it, last first.
pub open spec fn after_reactions(e: Editor, rs: Seq<UiReaction>) -> Editor
    decreases rs.len(),
{
    if rs.len() == 0 {
        e
    } else {
        after_reactions(after_reaction(e, rs.last()), rs.drop_last())
    }
}

/// Applies the reactions, last first, to the editor.
fn apply_reactions(editor: &mut Editor, events: &Vec<UiReaction>)
    requires
        old(editor).wf(),
    ensures
        final(editor).wf(),
        *final(editor) == after_reactions(*old(editor), events@),
        final(editor).layout_settings == old(editor).layout_settings,
        final(editor).tab_width == old(editor).tab_width,
{
    let mut i = events.len();
    proof {
        assert(events@.take(i as int) =~= events@);
    }
    while i > 0
        invariant
            i <= events@.len(),
            editor.wf(),
            editor.layout_settings == old(editor).layout_settings,
            editor.tab_width == old(editor).tab_width,
            after_reactions(*editor, events@.take(i as int)) == after_reactions(*old(editor), events@),
        decreases i,
    {
        let ghost before = *editor;
        i = i - 1;
        match events[i] {
            UiReaction::ScrollBy(amount) => editor.scroll_vertically(amount),
            UiReaction::FixScrol(x, y) => editor.set_scroll(x, y, SCROLL_MARGIN, SCROLL_MARGIN),
            UiReaction::SetRelativeCursorPos(x, y, select) => editor.set_relative_cursor_pos(x, y, select),
        }
        proof {
            assert(*editor == after_reaction(before, events@[i as int]));
            assert(events@.take(i + 1).drop_last() =~= events@.take(i as int));
            assert(events@.take(i + 1).last() == events@[i as int]);
        }
    }
    proof {
        assert(events@.take(0) =~= Seq::<UiReaction>::empty());
    }
}

/// The rectangles of the screen's regions over a `width` by `height`
/// terminal: the status line (whose text is `status_width` columns wide)
/// along the bottom, the gutter `g` on the left of the rest, the editor in
/// what remains; and the space left over.
pub open spec fn screen_rects(status_width: u32, g: LineNumbers, width: u32, height: u32) -> Seq<(u32, u32, u32, u32)> {
    let full = (0u32, 0u32, width, height);
    let r1 = item_rect(full, (status_width, 1u32), (width, height), Align::Bottom, Restriction::Shrink);
    let s1 = shrink_space(full, r1.2, r1.3, Align::Bottom);
    let w1 = (s1.2 - s1.0) as u32;
    let h1 = (s1.3 - s1.1) as u32;
    let r2 = item_rect(s1, g.spec_minimum_size(w1, h1), g.spec_maximum_size(w1, h1), Align::Left, Restriction::Shrink);
    let s2 = shrink_space(s1, r2.2, r2.3, Align::Left);
    let w2 = (s2.2 - s2.0) as u32;
    let h2 = (s2.3 - s2.1) as u32;
    let r3 = item_rect(s2, (w2, h2), (w2, h2), Align::Left, Restriction::Grow);
    let s3 = shrink_space(s2, r3.2, r3.3, Align::Left);
    seq![r1, r2, r3, s3]
}

/// The gutter shown beside editor `e`.
pub open spec fn gutter_of(e: Editor, relative: bool) -> LineNumbers {
    LineNumbers {
        start: e.scroll_lines,
        total: line_count(e.chars()) as usize,
        current: sat_add(e.spec_cursor_line() as usize, 1),
        relative,
    }
}

/// The frame drawn for editor `e` with status text `t` and gutter `g`: the
/// editor, the gutter and the status line spliced onto the left-over space,
/// in that order.
pub open spec fn frame_of(e: Editor, t: Seq<char>, g: LineNumbers, width: u32, height: u32) -> (
    Seq<Char>,
    Option<(usize, usize)>,
) {
    let rs = screen_rects(seq_width(t, TERM_TAB_WIDTH) as u32, g, width, height);
    let (r1, r2, r3, sp) = (rs[0], rs[1], rs[2], rs[3]);
    let sw = (sp.2 - sp.0) as u32;
    let sh = (sp.3 - sp.1) as u32;
    let start = DrawState { result: TerminalBuffer::spec_empty(sw, sh), x: sp.0, y: sp.1, width: sw, height: sh };
    let a = splice::<TerminalBuffer>(start, r3.0, r3.1, r3.2, r3.3, e.spec_draw(r3.2, r3.3));
    let b = splice::<TerminalBuffer>(a, r2.0, r2.1, r2.2, r2.3, g.spec_draw(r2.2, r2.3));
    let c = splice::<TerminalBuffer>(
        b,
        r1.0,
        r1.1,
        r1.2,
        r1.3,
        (fitted(t, (r1.2 * r1.3) as nat, 0, 0).map_values(|c: char| status(c)), None),
    );
    c.result
}

/// The layout of the screen: the status line at the bottom, the gutter on
/// the left, and the editor in the rest.
fn screen<'a>(
    text: &'a str,
    lines: LineNumbers,
    status: &'a Region<'a>,
    gutter: &'a Region<'a>,
    editor: &'a Region<'a>,
    width: u32,
    height: u32,
) -> (r: Layout<'a, Region<'a>>)
    requires
        width <= MAX_EXTENT,
        height <= MAX_EXTENT,
        status is Status,
        status->Status_0.string@ == text@,
        *gutter == Region::Gutter(lines),
        editor is Editor,
    ensures
        r.wf(),
        r.items@.len() == 3,
        r.items@[0].widget == status,
        r.items@[1].widget == gutter,
        r.items@[2].widget == editor,
        ({
            let rs = screen_rects(seq_width(text@, TERM_TAB_WIDTH) as u32, lines, width, height);
            &&& (r.items@[0].x, r.items@[0].y, r.items@[0].width, r.items@[0].height) == rs[0]
            &&& (r.items@[1].x, r.items@[1].y, r.items@[1].width, r.items@[1].height) == rs[1]
            &&& (r.items@[2].x, r.items@[2].y, r.items@[2].width, r.items@[2].height) == rs[2]
            &&& r.space == rs[3]
        }),
{
    let layout = Layout::new(width, height);
    let layout = layout.add_item::<TerminalBuffer, UiEvent, Vec<UiReaction>>(status, Align::Bottom, Restriction::Shrink);
    let ghost l1 = layout.items@;
    let layout = layout.add_item::<TerminalBuffer, UiEvent, Vec<UiReaction>>(gutter, Align::Left, Restriction::Shrink);
    let ghost l2 = layout.items@;
    let layout = layout.add_item::<TerminalBuffer, UiEvent, Vec<UiReaction>>(editor, Align::Left, Restriction::Grow);
    proof {
        assert(l2[0] == l1[0]);
        assert(layout.items@[0] == l2[0]);
        assert(layout.items@[1] == l2[1]);
    }
    layout
}

/// One interaction cycle: the regions react to `event`, the reactions are
/// applied to the editor last first, and the regions then draw the frame.
pub fn update_and_render_to_buffer(
    editor: &mut Editor,
    width: usize,
    height: usize,
    file_name: &str,
    relative_line_numbers: bool,
    event: UiEvent,
) -> (r: TerminalBuffer)
    requires
        old(editor).wf(),
        old(editor).layout_settings.tab_width == old(editor).tab_width,
        width <= MAX_EXTENT,
        height <= MAX_EXTENT,
    ensures
        final(editor).wf(),
        ({
            let t = status_text(
                file_name@,
                old(editor).spec_changed_since_save(),
                old(editor).spec_cursor_line(),
                old(editor).spec_column_width(),
            );
            let rs = screen_rects(
                seq_width(t, TERM_TAB_WIDTH) as u32,
                gutter_of(*old(editor), relative_line_numbers),
                width as u32,
                height as u32,
            );
            let e = after_reactions(
                *old(editor),
                editor_reactions(event, rs[2].0, rs[2].1, rs[2].2, rs[2].3),
            );
            &&& *final(editor) == e
            &&& r@ == frame_of(e, t, gutter_of(e, relative_line_numbers), width as u32, height as u32)
        }),
{
    let ghost e0 = *editor;
    let (row, column) = editor.get_row_and_column();
    let text = status_line(file_name, editor.has_changed_since_save(), row, column);
    let ghost t = text@;
    let current0 = editor.get_current_line().saturating_add(1);
    let lines0 = LineNumbers::new(editor.get_first_visible_line(), editor.len_lines(), current0, relative_line_numbers);
    let events = {
        let lines = lines0;
        let status = Region::Status(TextLine::new(text.as_str()));
        let gutter = Region::Gutter(lines);
        let main = Region::Editor(&*editor);
        let layout = screen(text.as_str(), lines, &status, &gutter, &main, width as u32, height as u32);
        let ghost items = layout.items@;
        let ev = layout.interact(&event);
        proof {
            let i2 = items[2];
            let f0 = crate::ui::interact_fold::<Region, UiEvent, Vec<UiReaction>>(items, &event, 0);
            let f1 = crate::ui::interact_fold::<Region, UiEvent, Vec<UiReaction>>(items, &event, 1);
            let f2 = crate::ui::interact_fold::<Region, UiEvent, Vec<UiReaction>>(items, &event, 2);
            let f3 = crate::ui::interact_fold::<Region, UiEvent, Vec<UiReaction>>(items, &event, 3);
            assert(f0 == Seq::<UiReaction>::empty());
            assert(f1 =~= editor_reactions(event, i2.x, i2.y, i2.width, i2.height));
            assert(f2 =~= f1);
            assert(f3 =~= f2);
        }
        ev
    };
    apply_reactions(editor, &events);
    proof {
        assert(lines0 == gutter_of(e0, relative_line_numbers));
        assert(t == status_text(file_name@, e0.spec_changed_since_save(), e0.spec_cursor_line(), e0.spec_column_width()));
    }
    let current = editor.get_current_line().saturating_add(1);
    let lines = LineNumbers::new(editor.get_first_visible_line(), editor.len_lines(), current, relative_line_numbers);
    let bar = Region::Status(TextLine::new(text.as_str()));
    let gutter = Region::Gutter(lines);
    let main = Region::Editor(&*editor);
    let layout = screen(text.as_str(), lines, &bar, &gutter, &main, width as u32, height as u32);
    let ghost items = layout.items@;
    proof {
        assert(forall|i: int|
            0 <= i < items.len() ==> (#[trigger] items[i]).widget.draw_ready(items[i].width, items[i].height)) by {
            assert(items[0].widget.draw_ready(items[0].width, items[0].height));
            assert(items[1].widget.draw_ready(items[1].width, items[1].height));
            assert(items[2].widget.draw_ready(items[2].width, items[2].height));
        }
    }
    let frame = layout.draw();
    proof {
        let e = *editor;
        let g = gutter_of(e, relative_line_numbers);
        assert(lines == g);
        let rs = screen_rects(seq_width(t, TERM_TAB_WIDTH) as u32, g, width as u32, height as u32);
        let sp = rs[3];
        let sw = (sp.2 - sp.0) as u32;
        let sh = (sp.3 - sp.1) as u32;
        let start = DrawState { result: TerminalBuffer::spec_empty(sw, sh), x: sp.0, y: sp.1, width: sw, height: sh };
        let d1 = crate::ui::draw_fold::<Region, TerminalBuffer>(items, start, 1);
        let d2 = crate::ui::draw_fold::<Region, TerminalBuffer>(items, start, 2);
        let d3 = crate::ui::draw_fold::<Region, TerminalBuffer>(items, start, 3);
        assert(crate::ui::draw_fold::<Region, TerminalBuffer>(items, start, 0) == start);
        assert(items[2].widget.spec_draw(items[2].width, items[2].height) == e.spec_draw(rs[2].2, rs[2].3));
        assert(items[1].widget.spec_draw(items[1].width, items[1].height) == g.spec_draw(rs[1].2, rs[1].3));
        assert(items[0].widget.spec_draw(items[0].width, items[0].height) == (fitted(t, (rs[0].2 * rs[0].3) as nat, 0, 0).map_values(|c: char| status(c)), None::<(usize, usize)>));
        assert(d1 == splice::<TerminalBuffer>(start, rs[2].0, rs[2].1, rs[2].2, rs[2].3, e.spec_draw(rs[2].2, rs[2].3)));
        assert(d2 == splice::<TerminalBuffer>(d1, rs[1].0, rs[1].1, rs[1].2, rs[1].3, g.spec_draw(rs[1].2, rs[1].3)));
        assert(frame@ == d3.result);
    }
    frame
}

} // verus!
