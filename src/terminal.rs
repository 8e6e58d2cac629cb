//! The terminal line layout, cells, colours and the diff renderer.

use crate::editor::{layout_wf, GraphemePosition, LineLayout};
use crate::ui::MAX_EXTENT;
use crate::unicode::{lemma_prefix_step, lemma_prefix_within, byte_len, char_display_width, char_width, TERM_TAB_WIDTH, graphemes, graphemes_of, lemma_byte_len_concat, lemma_byte_len_ge_len, lemma_seq_width_concat, seq_width, str_width};
use vstd::prelude::*;
use vstd::utf8::encode_utf8;

verus! {

/// Lays out lines for a terminal that shows tabs `tab_width` columns wide.
pub struct TermLineLayoutSettings {
    pub tab_width: usize,
}

impl TermLineLayoutSettings {
    pub fn new(tab_width: usize) -> (r: Self)
        ensures
            r.tab_width == tab_width,
    {
        Self { tab_width }
    }
}

/// The position of cluster `i` among the clusters `gs`.
pub open spec fn term_position(gs: Seq<Seq<char>>, i: int, tab_width: usize) -> GraphemePosition {
    GraphemePosition {
        start_column: seq_width(gs.take(i).flatten_alt(), tab_width) as usize,
        end_column: seq_width(gs.take(i + 1).flatten_alt(), tab_width) as usize,
        cursor: byte_len(gs.take(i).flatten_alt()) as usize,
    }
}

/// The terminal layout of a line: one position per grapheme cluster.
pub open spec fn term_layout(line: Seq<char>, tab_width: usize) -> Seq<GraphemePosition> {
    let gs = graphemes_of(line);
    Seq::new(gs.len(), |i: int| term_position(gs, i, tab_width))
}

impl LineLayout for TermLineLayoutSettings {
    open spec fn spec_layout(&self, line: Seq<char>) -> Seq<GraphemePosition> {
        term_layout(line, self.tab_width)
    }

    open spec fn spec_width_factor(&self) -> nat {
        (self.tab_width + 3) as nat
    }

    fn width_fits(&self, a: usize, b: usize) -> (r: bool) {
        let n = a as u128 + b as u128;
        let f = self.tab_width as u128 + 3;
        let m = usize::MAX as u128;
        let r = n <= m / f;
        proof {
            if r {
                assert(n * f <= m) by (nonlinear_arith)
                    requires n <= m / f, f > 0;
            } else {
                assert(n * f > m) by (nonlinear_arith)
                    requires n > m / f, f > 0;
            }
        }
        r
    }

    fn layout_line(&self, line: &str) -> (r: Vec<GraphemePosition>) {
        let gs = graphemes(line);
        let ghost g = gs.deep_view();
        let tab_width = self.tab_width;
        let mut out: Vec<GraphemePosition> = Vec::new();
        let mut column: usize = 0;
        let mut cursor: usize = 0;
        let mut i: usize = 0;
        proof {
            lemma_byte_len_ge_len(line@);
        }
        while i < gs.len()
            invariant
                g == gs.deep_view(),
                g == graphemes_of(line@),
                g.flatten_alt() == line@,
                forall|k: int| 0 <= k < gs.len() ==> (#[trigger] gs@[k])@.len() > 0,
                forall|k: int| 0 <= k < gs.len() ==> (#[trigger] g[k]) == gs@[k]@,
                line@.len() * (tab_width + 3) <= usize::MAX,
                byte_len(line@) <= usize::MAX,
                i <= gs.len(),
                out@.len() == i,
                column == seq_width(g.take(i as int).flatten_alt(), tab_width),
                column <= g.take(i as int).flatten_alt().len() * (tab_width + 3),
                cursor == byte_len(g.take(i as int).flatten_alt()),
                forall|k: int| 0 <= k < i ==> out@[k] == term_position(g, k, tab_width),
                forall|k: int| 0 <= k < i ==> #[trigger] out@[k].start_column <= out@[k].end_column,
            decreases gs.len() - i,
        {
            let piece = gs[i].as_str();
            proof {
                lemma_prefix_step(g, i as int);
                lemma_prefix_within(g, i + 1);
                lemma_seq_width_concat(g.take(i as int).flatten_alt(), g[i as int], tab_width);
                lemma_byte_len_concat(g.take(i as int).flatten_alt(), g[i as int]);
                let n = g.take(i as int).flatten_alt().len();
                let m = g[i as int].len();
                assert(n + m <= line@.len());
                assert((n + m) * (tab_width + 3) <= line@.len() * (tab_width + 3)) by (nonlinear_arith)
                    requires n + m <= line@.len();
                assert((n + m) * (tab_width + 3) == n * (tab_width + 3) + m * (tab_width + 3)) by (nonlinear_arith);
                assert(m * (tab_width + 3) <= line@.len() * (tab_width + 3)) by (nonlinear_arith)
                    requires m <= line@.len();
            }
            let w = str_width(piece, tab_width);
            let b = piece.len();
            let next_column = column + w;
            out.push(GraphemePosition { start_column: column, end_column: next_column, cursor });
            column = next_column;
            cursor = cursor + b;
            i = i + 1;
        }
        proof {
            assert(out@ =~= term_layout(line@, tab_width));
            assert forall|k: int| 0 <= k < out@.len() implies #[trigger] out@[k].cursor < byte_len(line@) by {
                lemma_prefix_step(g, k);
                lemma_prefix_within(g, k + 1);
                lemma_byte_len_concat(g.take(k).flatten_alt(), g[k]);
                lemma_byte_len_ge_len(g[k]);
            }
            assert forall|a: int, b: int| 0 <= a < b < out@.len() implies out@[a].cursor < out@[b].cursor by {
                lemma_prefix_step(g, a);
                lemma_byte_len_concat(g.take(a).flatten_alt(), g[a]);
                lemma_byte_len_ge_len(g[a]);
                assert(g[a] == gs@[a]@);
                lemma_prefix_within(g.take(b), a + 1);
                assert(g.take(b).take(a + 1) =~= g.take(a + 1));
                lemma_prefix_within(g, b);
                assert(out@[a].cursor == byte_len(g.take(a).flatten_alt()));
                assert(out@[b].cursor == byte_len(g.take(b).flatten_alt()));
            }
            if out@.len() > 0 {
                assert(g.take(0) =~= Seq::<Seq<char>>::empty());
                assert(g.take(0).flatten_alt() =~= Seq::<char>::empty());
                assert(encode_utf8(Seq::<char>::empty()) =~= Seq::<u8>::empty());
            }
            if line@.len() == 0 {
                if g.len() > 0 {
                    lemma_prefix_within(g, 1);
                    lemma_prefix_step(g, 0);
                    assert(g.take(0) =~= Seq::<Seq<char>>::empty());
                }
            }
            if g.len() == 0 {
                assert(g.flatten_alt() =~= Seq::<char>::empty());
            }
        }
        assert(layout_wf(out@, line@));
        out
    }
}

/// How a cell is coloured.
#[derive(Copy, Clone, PartialEq, Eq, Structural, Debug)]
pub enum Highlight {
    Text,
    Selection,
    Gutter,
    Status,
}

/// A terminal colour.
#[derive(Copy, Clone, PartialEq, Eq, Structural, Debug)]
pub enum TermColor {
    Reset,
    Black,
    Blue,
    Yellow,
    Grey,
}

impl Highlight {
    pub open spec fn spec_foreground(self) -> TermColor {
        match self {
            Highlight::Text => TermColor::Reset,
            Highlight::Selection => TermColor::Black,
            Highlight::Gutter => TermColor::Yellow,
            Highlight::Status => TermColor::Black,
        }
    }

    pub open spec fn spec_background(self) -> TermColor {
        match self {
            Highlight::Text => TermColor::Reset,
            Highlight::Selection => TermColor::Blue,
            Highlight::Gutter => TermColor::Reset,
            Highlight::Status => TermColor::Grey,
        }
    }

    /// Foreground colour of the highlight on the terminal.
    pub fn get_color_foreground_crossterm(self) -> (r: TermColor)
        ensures
            r == self.spec_foreground(),
    {
        match self {
            Highlight::Text => TermColor::Reset,
            Highlight::Selection => TermColor::Black,
            Highlight::Gutter => TermColor::Yellow,
            Highlight::Status => TermColor::Black,
        }
    }

    /// Background colour of the highlight on the terminal.
    pub fn get_color_background_crossterm(self) -> (r: TermColor)
        ensures
            r == self.spec_background(),
    {
        match self {
            Highlight::Text => TermColor::Reset,
            Highlight::Selection => TermColor::Blue,
            Highlight::Gutter => TermColor::Reset,
            Highlight::Status => TermColor::Grey,
        }
    }
}

/// One cell of a frame: a character and its highlight.
#[derive(Copy, Clone, PartialEq, Eq, Structural, Debug)]
pub struct Char {
    pub c: char,
    pub color: Highlight,
}

impl Char {
    /// A text cell, highlighted as selected or not.
    pub fn new_text(c: char, selected: bool) -> (r: Self)
        ensures
            r.c == c,
            r.color == (if selected { Highlight::Selection } else { Highlight::Text }),
    {
        Self { c, color: if selected { Highlight::Selection } else { Highlight::Text } }
    }

    pub fn new(c: char, color: Highlight) -> (r: Self)
        ensures
            r.c == c,
            r.color == color,
    {
        Self { c, color }
    }
}

/// A frame: its cells in reading order and where the cursor is shown, if anywhere.
pub type TerminalBuffer = (Vec<Char>, Option<(usize, usize)>);

/// One instruction to the terminal.
#[derive(Copy, Clone, PartialEq, Eq, Structural, Debug)]
pub enum RenderCommand {
    MoveTo(usize, usize),
    SetForeground(TermColor),
    SetBackground(TermColor),
    Print(char),
    Show,
    Hide,
}

/// The characters that `cmds` print, in order.
pub open spec fn printed(cmds: Seq<RenderCommand>) -> Seq<char>
    decreases cmds.len(),
{
    if cmds.len() == 0 {
        Seq::empty()
    } else {
        match cmds.last() {
            RenderCommand::Print(c) => printed(cmds.drop_last()).push(c),
            _ => printed(cmds.drop_last()),
        }
    }
}

/// Every command that begins a frame: both colours reset.
pub open spec fn render_prologue() -> Seq<RenderCommand> {
    seq![RenderCommand::SetForeground(TermColor::Reset), RenderCommand::SetBackground(TermColor::Reset)]
}

/// Every command that ends a frame: the cursor placed, or hidden.
pub open spec fn render_epilogue(cursor_position: Option<(usize, usize)>) -> Seq<RenderCommand> {
    match cursor_position {
        Some((x, y)) => seq![RenderCommand::Show, RenderCommand::MoveTo(x, y)],
        None => seq![RenderCommand::Hide],
    }
}

/// The characters of the cells of a frame.
pub open spec fn cell_chars(cells: Seq<Char>) -> Seq<char> {
    cells.map_values(|c: Char| c.c)
}

proof fn lemma_printed_push(cmds: Seq<RenderCommand>, c: RenderCommand)
    ensures
        printed(cmds.push(c)) == (match c {
            RenderCommand::Print(ch) => printed(cmds).push(ch),
            _ => printed(cmds),
        }),
{
    assert(cmds.push(c).drop_last() =~= cmds);
}

proof fn lemma_printed_concat(a: Seq<RenderCommand>, b: Seq<RenderCommand>)
    ensures
        printed(a + b) == printed(a) + printed(b),
    decreases b.len(),
{
    if b.len() == 0 {
        assert(a + b =~= a);
        assert(printed(a) + printed(b) =~= printed(a));
    } else {
        assert((a + b).drop_last() =~= a + b.drop_last());
        lemma_printed_concat(a, b.drop_last());
        match b.last() {
            RenderCommand::Print(ch) => {
                assert(printed(a) + printed(b.drop_last()).push(ch) =~= (printed(a) + printed(
                    b.drop_last(),
                )).push(ch));
            },
            _ => {},
        }
    }
}

/// Where the renderer stands between two cells: the cell position in the
/// new frame, the position and index of the next cell of the previous frame,
/// whether the next write must move the cursor first, and the last colours sent.
pub struct RenderWalk {
    pub x: usize,
    pub y: usize,
    pub px: usize,
    pub py: usize,
    pub j: usize,
    pub force: bool,
    pub fg: TermColor,
    pub bg: TermColor,
}

/// The walk before the first cell.
pub open spec fn walk_start() -> RenderWalk {
    RenderWalk { x: 0, y: 0, px: 0, py: 0, j: 0, force: true, fg: TermColor::Reset, bg: TermColor::Reset }
}

/// A position moved by `w` columns, wrapping at `width`.
pub open spec fn advance(x: usize, y: usize, w: nat, width: usize) -> (usize, usize) {
    if x + w >= width {
        (0, (y + 1) as usize)
    } else {
        ((x + w) as usize, y)
    }
}

/// Whether cell `c` must be written: its position, character or highlight
/// differs from the previous frame's cell there.
pub open spec fn cell_changed(st: RenderWalk, c: Char, prev: Seq<Char>) -> bool {
    st.x != st.px || st.y != st.py || st.j >= prev.len() || c != prev[st.j as int]
}

/// Whether the terminal's own advance cannot be trusted after `c`.
pub open spec fn needs_move(c: char) -> bool {
    (c as u32) >= 0x80 || (c as u32) < 0x20 || (c as u32) == 0x7f
}

/// The commands for cell `c`: nothing when it is unchanged; otherwise a move
/// where one is due, the colours that differ from the last ones sent, and
/// the character.
pub open spec fn cell_output(st: RenderWalk, c: Char, prev: Seq<Char>) -> Seq<RenderCommand> {
    if cell_changed(st, c, prev) {
        let fg = c.color.spec_foreground();
        let bg = c.color.spec_background();
        (if st.force { seq![RenderCommand::MoveTo(st.x, st.y)] } else { Seq::empty() })
            + (if fg != st.fg { seq![RenderCommand::SetForeground(fg)] } else { Seq::empty() })
            + (if bg != st.bg { seq![RenderCommand::SetBackground(bg)] } else { Seq::empty() })
            + seq![RenderCommand::Print(c.c)]
    } else {
        Seq::empty()
    }
}

/// The previous frame's cells skipped until its position reaches (x, y).
pub open spec fn catch_up(prev: Seq<Char>, width: usize, j: nat, px: usize, py: usize, x: usize, y: usize) -> (
    nat,
    usize,
    usize,
)
    decreases prev.len() - j,
{
    if j < prev.len() && (px < x || py < y) {
        let (nx, ny) = advance(px, py, char_width(prev[j as int].c, TERM_TAB_WIDTH), width);
        catch_up(prev, width, j + 1, nx, ny, x, y)
    } else {
        (j, px, py)
    }
}

/// The walk after cell `c`: the new position, the previous frame's cell at
/// the old position consumed with it and those left behind skipped, and the
/// colours and move flag updated.
pub open spec fn cell_next(st: RenderWalk, c: Char, prev: Seq<Char>, width: usize) -> RenderWalk {
    let changed = cell_changed(st, c, prev);
    let w = char_width(c.c, TERM_TAB_WIDTH);
    let (x, y) = advance(st.x, st.y, w, width);
    let force = if st.x + w >= width { true } else if changed { needs_move(c.c) } else { true };
    let fg = if changed { c.color.spec_foreground() } else { st.fg };
    let bg = if changed { c.color.spec_background() } else { st.bg };
    let (j1, px1, py1) = if st.px == st.x && st.py == st.y && st.j < prev.len() {
        let (a, b) = advance(st.px, st.py, char_width(prev[st.j as int].c, TERM_TAB_WIDTH), width);
        ((st.j + 1) as usize, a, b)
    } else {
        (st.j, st.px, st.py)
    };
    let (j2, px2, py2) = catch_up(prev, width, j1 as nat, px1, py1, x, y);
    RenderWalk { x, y, px: px2, py: py2, j: j2 as usize, force, fg, bg }
}

/// The commands for the cells of `buffer` from the `i`-th on.
pub open spec fn walk(buffer: Seq<Char>, prev: Seq<Char>, width: usize, i: int, st: RenderWalk) -> Seq<RenderCommand>
    decreases buffer.len() - i,
{
    if i < 0 || i >= buffer.len() {
        Seq::empty()
    } else {
        cell_output(st, buffer[i], prev) + walk(buffer, prev, width, i + 1, cell_next(st, buffer[i], prev, width))
    }
}

/// The commands that turn the screen showing `previous_buffer` into one
/// showing `buffer`, both wrapped into rows `width` columns wide.
///
/// The two frames are walked in step by position: the previous frame's cell
/// at the current cell's position is consumed with it, and any previous
/// cells left behind are skipped. A cell is written only where its
/// character, highlight or position differs from the previous frame; the cursor is moved before a write only after a
/// skipped cell, a wrapped row, or a character that is not printable ASCII;
/// colours are changed only when they differ from the last ones sent.
#[verifier::rlimit(60)]
pub fn render(
    width: usize,
    cursor_position: Option<(usize, usize)>,
    buffer: &[Char],
    previous_buffer: &[Char],
) -> (r: Vec<RenderCommand>)
    requires
        width <= MAX_EXTENT,
    ensures
        r@ == render_prologue() + walk(buffer@, previous_buffer@, width, 0, walk_start()) + render_epilogue(
            cursor_position,
        ),
        r@.take(2) == render_prologue(),
        r@.skip(r@.len() - render_epilogue(cursor_position).len()) == render_epilogue(cursor_position),
        printed(r@).len() <= buffer@.len(),
        previous_buffer@.len() == 0 ==> printed(r@) == cell_chars(buffer@),
        buffer@ == previous_buffer@ ==> r@ == render_prologue() + render_epilogue(cursor_position),
{
    let mut out: Vec<RenderCommand> = Vec::new();
    let mut x: usize = 0;
    let mut y: usize = 0;
    let mut prev_x: usize = 0;
    let mut prev_y: usize = 0;
    let mut j: usize = 0;
    let mut force_move = true;
    let mut prev_fg = TermColor::Reset;
    let mut prev_bg = TermColor::Reset;
    let ghost same = buffer@ == previous_buffer@;
    out.push(RenderCommand::SetForeground(TermColor::Reset));
    out.push(RenderCommand::SetBackground(TermColor::Reset));
    proof {
        assert(out@ =~= render_prologue());
        lemma_printed_push(seq![], RenderCommand::SetForeground(TermColor::Reset));
        lemma_printed_push(seq![RenderCommand::SetForeground(TermColor::Reset)], RenderCommand::SetBackground(TermColor::Reset));
        assert(seq![RenderCommand::SetForeground(TermColor::Reset)] =~= Seq::<RenderCommand>::empty().push(RenderCommand::SetForeground(TermColor::Reset)));
        assert(render_prologue() =~= seq![RenderCommand::SetForeground(TermColor::Reset)].push(RenderCommand::SetBackground(TermColor::Reset)));
        assert(printed(seq![]) =~= Seq::<char>::empty());
    }
    let mut i: usize = 0;
    while i < buffer.len()
        invariant
            width <= MAX_EXTENT,
            i <= buffer@.len(),
            j <= previous_buffer@.len(),
            prev_y <= j,
            x < width || x == 0,
            prev_x < width || prev_x == 0,
            y <= i,
            out@.len() >= 2,
            out@.take(2) == render_prologue(),
            printed(out@).len() <= i,
            previous_buffer@.len() == 0 ==> printed(out@) == cell_chars(buffer@.take(i as int)),
            same == (buffer@ == previous_buffer@),
            same ==> j == i && x == prev_x && y == prev_y && out@ == render_prologue(),
            out@ + walk(buffer@, previous_buffer@, width, i as int, RenderWalk { x, y, px: prev_x, py: prev_y, j, force: force_move, fg: prev_fg, bg: prev_bg })
                == render_prologue() + walk(buffer@, previous_buffer@, width, 0, walk_start()),
        decreases buffer@.len() - i,
    {
        let c = buffer[i];
        let ghost before = out@;
        let ghost st = RenderWalk { x, y, px: prev_x, py: prev_y, j, force: force_move, fg: prev_fg, bg: prev_bg };
        if x != prev_x || y != prev_y || j >= previous_buffer.len() || c != previous_buffer[j] {
            if force_move {
                out.push(RenderCommand::MoveTo(x, y));
            }
            let fg = c.color.get_color_foreground_crossterm();
            let bg = c.color.get_color_background_crossterm();
            if fg != prev_fg {
                out.push(RenderCommand::SetForeground(fg));
                prev_fg = fg;
            }
            if bg != prev_bg {
                out.push(RenderCommand::SetBackground(bg));
                prev_bg = bg;
            }
            let ghost mid = out@;
            out.push(RenderCommand::Print(c.c));
            proof {
                lemma_printed_push(mid, RenderCommand::Print(c.c));
                assert(printed(mid) == printed(before)) by {
                    let d = mid.skip(before.len() as int);
                    assert(mid =~= before + d);
                    lemma_printed_concat(before, d);
                    assert forall|k: int| 0 <= k < d.len() implies !(#[trigger] d[k] is Print) by {}
                    lemma_no_prints(d);
                    assert(printed(before) + Seq::<char>::empty() =~= printed(before));
                }
                if previous_buffer@.len() == 0 {
                    assert(cell_chars(buffer@.take(i + 1)) =~= cell_chars(buffer@.take(i as int)).push(c.c));
                }
                assert(out@.take(2) =~= before.take(2));
            }
            let code = c.c as u32;
            force_move = code >= 0x80 || code < 0x20 || code == 0x7f;
        } else {
            force_move = true;
        }
        let old_x = x;
        let old_y = y;
        let w = char_display_width(c.c, TERM_TAB_WIDTH);
        x = x + w;
        if x >= width {
            y = y + 1;
            x = 0;
            force_move = true;
        }
        let ghost emitted = out@;
        let ghost mid_force = force_move;
        let ghost mid_fg = prev_fg;
        let ghost mid_bg = prev_bg;
        if prev_x == old_x && prev_y == old_y && j < previous_buffer.len() {
            let pw = char_display_width(previous_buffer[j].c, TERM_TAB_WIDTH);
            prev_x = prev_x + pw;
            if prev_x >= width {
                prev_y = prev_y + 1;
                prev_x = 0;
            }
            j = j + 1;
        }
        let ghost aim = catch_up(previous_buffer@, width, j as nat, prev_x, prev_y, x, y);
        while (prev_x < x || prev_y < y) && j < previous_buffer.len()
            invariant
                aim == catch_up(previous_buffer@, width, j as nat, prev_x, prev_y, x, y),
                width <= MAX_EXTENT,
                j <= previous_buffer@.len(),
                prev_y <= j,
                prev_x < width || prev_x == 0,
                x < width || x == 0,
                same ==> j == i + 1 && prev_x == x && prev_y == y,
                same ==> x == (if old_x + w >= width { 0 } else { old_x + w }),
                same ==> y == (if old_x + w >= width { old_y + 1 } else { old_y as int }),
                w == char_width(c.c, TERM_TAB_WIDTH),
            decreases previous_buffer@.len() - j,
        {
            let pw = char_display_width(previous_buffer[j].c, TERM_TAB_WIDTH);
            prev_x = prev_x + pw;
            if prev_x >= width {
                prev_y = prev_y + 1;
                prev_x = 0;
            }
            j = j + 1;
        }
        proof {
            let nxt = cell_next(st, c, previous_buffer@, width);
            assert(emitted == before + cell_output(st, c, previous_buffer@));
            assert(RenderWalk { x, y, px: prev_x, py: prev_y, j, force: force_move, fg: prev_fg, bg: prev_bg } == nxt);
            assert(buffer@[i as int] == c);
            assert(walk(buffer@, previous_buffer@, width, i as int, st) == cell_output(st, c, previous_buffer@) + walk(buffer@, previous_buffer@, width, i + 1, nxt));
            assert(out@ + walk(buffer@, previous_buffer@, width, i + 1, nxt) =~= before + (cell_output(st, c, previous_buffer@) + walk(buffer@, previous_buffer@, width, i + 1, nxt)));
        }
        i = i + 1;
    }
    let ghost body = out@;
    match cursor_position {
        Some((cx, cy)) => {
            out.push(RenderCommand::Show);
            out.push(RenderCommand::MoveTo(cx, cy));
        },
        None => {
            out.push(RenderCommand::Hide);
        },
    }
    proof {
        let e = render_epilogue(cursor_position);
        assert(out@ =~= body + e);
        lemma_printed_concat(body, e);
        assert forall|k: int| 0 <= k < e.len() implies !(#[trigger] e[k] is Print) by {}
        lemma_no_prints(e);
        assert(printed(body) + Seq::<char>::empty() =~= printed(body));
        assert(out@.take(2) =~= body.take(2));
        assert(out@.skip(out@.len() - e.len()) =~= e);
        if previous_buffer@.len() == 0 {
            assert(buffer@.take(i as int) =~= buffer@);
        }
        assert(body + Seq::<RenderCommand>::empty() =~= body);
    }
    out
}

proof fn lemma_no_prints(d: Seq<RenderCommand>)
    requires
        forall|k: int| 0 <= k < d.len() ==> !(#[trigger] d[k] is Print),
    ensures
        printed(d) == Seq::<char>::empty(),
    decreases d.len(),
{
    if d.len() > 0 {
        lemma_no_prints(d.drop_last());
    }
}

} // verus!
