//! How the gutter, the text line and the editor draw and react, and how
//! terminal drawings and reactions combine.

use crate::document::{lemma_line_start_bounds, lemma_char_of_prefix, line_count, line_start, rope_chars};
use crate::editor::{line_byte, line_text, TextEditor};
use crate::terminal::{Char, Highlight, TermLineLayoutSettings, TerminalBuffer};
use crate::ui::{DrawResult, Drawable, Interactive, OutputResult, Widget};
use crate::unicode::{byte_len, char_display_width, char_width, graphemes, graphemes_of, is_line_break_char, seq_width, str_width, TERM_TAB_WIDTH};
use crate::widgets::{digit_count, pow10, LineNumbers, TextLine};
use vstd::prelude::*;

verus! {

/// An input that the regions react to.
#[derive(Copy, Clone, PartialEq, Eq, Structural, Debug)]
pub enum UiEvent {
    /// A click at a column and row, extending the selection or not.
    Clicked(usize, usize, bool),
    /// A page up (`true`) or down.
    ScrollPage(bool),
    Nothing,
}

/// A change that a region asks the caller to make to the editor.
#[derive(Copy, Clone, PartialEq, Eq, Structural, Debug)]
pub enum UiReaction {
    /// Fit the scroll offsets to a viewport of this width and height.
    FixScrol(usize, usize),
    /// Put the cursor at this viewport position, extending the selection or not.
    SetRelativeCursorPos(usize, usize, bool),
    /// Scroll by this many lines.
    ScrollBy(isize),
}

impl OutputResult for Vec<UiReaction> {
    open spec fn spec_empty() -> Seq<UiReaction> {
        Seq::empty()
    }

    open spec fn spec_combine(a: Seq<UiReaction>, b: Seq<UiReaction>) -> Seq<UiReaction> {
        a + b
    }

    fn empty() -> (r: Self) {
        Vec::new()
    }

    fn combine(self, other: Self) -> (r: Self) {
        let mut a = self;
        let mut b = other;
        a.append(&mut b);
        a
    }
}

/// A blank text cell.
pub open spec fn blank() -> Char {
    Char { c: ' ', color: Highlight::Text }
}

/// Width of a cell's character on the terminal.
pub open spec fn cell_width(c: Char) -> nat {
    char_width(c.c, TERM_TAB_WIDTH)
}

/// The cells of `a` and `b` interleaved row by row: cells come from `a`
/// while the running column is left of `split` and from `b` after it, the
/// column wrapping at `width`; it ends when the side it needs runs out.
pub open spec fn interleave(
    a: Seq<Char>,
    b: Seq<Char>,
    ia: int,
    ib: int,
    column: nat,
    width: nat,
    split: nat,
) -> Seq<Char>
    decreases a.len() - ia + b.len() - ib,
{
    if ia < 0 || ib < 0 || ia > a.len() || ib > b.len() {
        Seq::empty()
    } else if column < split {
        if ia >= a.len() {
            Seq::empty()
        } else {
            let next = column + cell_width(a[ia]);
            let wrapped = if next >= width { (next - width) as nat } else { next };
            seq![a[ia]] + interleave(a, b, ia + 1, ib, wrapped, width, split)
        }
    } else {
        if ib >= b.len() {
            Seq::empty()
        } else {
            let next = column + cell_width(b[ib]);
            let wrapped = if next >= width { (next - width) as nat } else { next };
            seq![b[ib]] + interleave(a, b, ia, ib + 1, wrapped, width, split)
        }
    }
}

/// `y` moved down by `d`, kept within a `usize`.
pub open spec fn shift(y: usize, d: u32) -> usize {
    if y + d > usize::MAX {
        usize::MAX
    } else {
        (y + d) as usize
    }
}

impl DrawResult for TerminalBuffer {
    open spec fn spec_empty(width: u32, height: u32) -> (Seq<Char>, Option<(usize, usize)>) {
        (Seq::new((width * height) as nat, |i: int| blank()), None)
    }

    open spec fn spec_combine_vertical(
        a: (Seq<Char>, Option<(usize, usize)>),
        b: (Seq<Char>, Option<(usize, usize)>),
        width: u32,
        split: u32,
        height: u32,
    ) -> (Seq<Char>, Option<(usize, usize)>) {
        (
            a.0 + b.0,
            match a.1 {
                Some(p) => Some(p),
                None => match b.1 {
                    Some((x, y)) => Some((x, shift(y, split))),
                    None => None,
                },
            },
        )
    }

    open spec fn spec_combine_horizontal(
        a: (Seq<Char>, Option<(usize, usize)>),
        b: (Seq<Char>, Option<(usize, usize)>),
        width: u32,
        split: u32,
        height: u32,
    ) -> (Seq<Char>, Option<(usize, usize)>) {
        (
            interleave(a.0, b.0, 0, 0, 0, width as nat, split as nat),
            match a.1 {
                Some(p) => Some(p),
                None => match b.1 {
                    Some((x, y)) => Some((shift(x, split), y)),
                    None => None,
                },
            },
        )
    }

    fn empty(width: u32, height: u32) -> (r: Self) {
        let mut cells: Vec<Char> = Vec::new();
        let mut row: u32 = 0;
        while row < height
            invariant
                row <= height,
                cells@.len() == row * width,
                forall|i: int| 0 <= i < cells@.len() ==> cells@[i] == blank(),
            decreases height - row,
        {
            let mut col: u32 = 0;
            while col < width
                invariant
                    row < height,
                    col <= width,
                    cells@.len() == row * width + col,
                    forall|i: int| 0 <= i < cells@.len() ==> cells@[i] == blank(),
                decreases width - col,
            {
                cells.push(Char::new_text(' ', false));
                col = col + 1;
            }
            assert((row + 1) * width == row * width + width) by (nonlinear_arith);
            row = row + 1;
        }
        assert(row * width == width * height) by (nonlinear_arith)
            requires row == height;
        assert(cells@ =~= Seq::new((width * height) as nat, |i: int| blank()));
        (cells, None)
    }

    fn combine_vertical(self, other: Self, width: u32, split: u32, height: u32) -> (r: Self) {
        let (mut cells, pos) = self;
        let (mut more, other_pos) = other;
        cells.append(&mut more);
        let p = match pos {
            Some(p) => Some(p),
            None => match other_pos {
                Some((x, y)) => Some((x, y.saturating_add(split as usize))),
                None => None,
            },
        };
        (cells, p)
    }

    fn combine_horizontal(self, other: Self, width: u32, split: u32, height: u32) -> (r: Self) {
        let (left, pos) = self;
        let (right, other_pos) = other;
        let mut cells: Vec<Char> = Vec::new();
        let mut ia: usize = 0;
        let mut ib: usize = 0;
        let mut column: u128 = 0;
        let ghost a = left@;
        let ghost b = right@;
        loop
            invariant
                a == left@,
                b == right@,
                ia <= left@.len(),
                ib <= right@.len(),
                column <= width + 3 * (ia + ib),
                cells@ + interleave(a, b, ia as int, ib as int, column as nat, width as nat, split as nat)
                    == interleave(a, b, 0, 0, 0, width as nat, split as nat),
            ensures
                cells@ == interleave(a, b, 0, 0, 0, width as nat, split as nat),
            decreases left@.len() - ia + right@.len() - ib,
        {
            let c = if column < split as u128 {
                if ia >= left.len() {
                    proof {
                        assert(cells@ + Seq::<Char>::empty() =~= cells@);
                    }
                    break;
                }
                let c = left[ia];
                ia = ia + 1;
                c
            } else {
                if ib >= right.len() {
                    proof {
                        assert(cells@ + Seq::<Char>::empty() =~= cells@);
                    }
                    break;
                }
                let c = right[ib];
                ib = ib + 1;
                c
            };
            let w = char_display_width(c.c, TERM_TAB_WIDTH);
            column = column + w as u128;
            if column >= width as u128 {
                column = column - width as u128;
            }
            proof {
                assert(cells@.push(c) + interleave(a, b, ia as int, ib as int, column as nat, width as nat, split as nat)
                    =~= cells@ + (seq![c] + interleave(a, b, ia as int, ib as int, column as nat, width as nat, split as nat)));
            }
            cells.push(c);
        }
        let p = match pos {
            Some(p) => Some(p),
            None => match other_pos {
                Some((x, y)) => Some((x.saturating_add(split as usize), y)),
                None => None,
            },
        };
        (cells, p)
    }
}

/// A status-line cell.
pub open spec fn status(c: char) -> Char {
    Char { c, color: Highlight::Status }
}

/// A gutter cell.
pub open spec fn gutter(c: char) -> Char {
    Char { c, color: Highlight::Gutter }
}

/// The characters of `s` from the `i`-th on that fit in `area` columns
/// (counting from `used`), then, if all of them fit, spaces up to `area`.
pub open spec fn fitted(s: Seq<char>, area: nat, i: int, used: nat) -> Seq<char>
    decreases s.len() - i,
{
    if i < 0 {
        Seq::empty()
    } else if i >= s.len() {
        Seq::new((area - used) as nat, |k: int| ' ')
    } else {
        let next = used + char_width(s[i], TERM_TAB_WIDTH);
        if next <= area {
            seq![s[i]] + fitted(s, area, i + 1, next)
        } else {
            Seq::empty()
        }
    }
}

impl<'a> Drawable<TerminalBuffer> for TextLine<'a> {
    open spec fn spec_draw(&self, width: u32, height: u32) -> (Seq<Char>, Option<(usize, usize)>) {
        (fitted(self.string@, (width * height) as nat, 0, 0).map_values(|c: char| status(c)), None)
    }

    open spec fn draw_ready(&self, width: u32, height: u32) -> bool {
        true
    }

    /// The text, cut where it no longer fits the region and padded with spaces.
    fn draw(&self, width: u32, height: u32) -> (r: TerminalBuffer) {
        assert((width as u128) * (height as u128) <= 0xffff_ffff_u128 * 0xffff_ffff_u128) by (nonlinear_arith)
            requires width <= 0xffff_ffff, height <= 0xffff_ffff;
        let area: u128 = width as u128 * height as u128;
        let text = self.string;
        let n = text.unicode_len();
        let ghost full = fitted(text@, area as nat, 0, 0);
        let mut cells: Vec<Char> = Vec::new();
        let mut used: u128 = 0;
        let mut i: usize = 0;
        let mut fits = true;
        while i < n && fits
            invariant
                n == text@.len(),
                i <= n,
                used <= area,
                area == width * height,
                area <= 0xffff_ffff_u128 * 0xffff_ffff_u128,
                fits ==> cells@ + fitted(text@, area as nat, i as int, used as nat).map_values(|c: char| status(c))
                    == full.map_values(|c: char| status(c)),
                !fits ==> cells@ == full.map_values(|c: char| status(c)),
            decreases n - i + if fits { 1int } else { 0int },
        {
            let c = text.get_char(i);
            let w = char_display_width(c, TERM_TAB_WIDTH);
            if used + (w as u128) <= area {
                proof {
                    let rest = fitted(text@, area as nat, i + 1, (used + w) as nat);
                    assert((seq![c] + rest).map_values(|c: char| status(c)) =~= seq![status(c)] + rest.map_values(|c: char| status(c)));
                    assert(cells@.push(status(c)) + rest.map_values(|c: char| status(c)) =~= cells@ + (seq![status(c)] + rest.map_values(|c: char| status(c))));
                }
                cells.push(Char::new(c, Highlight::Status));
                used = used + w as u128;
                i = i + 1;
            } else {
                proof {
                    assert(Seq::<char>::empty().map_values(|c: char| status(c)) =~= Seq::<Char>::empty());
                    assert(cells@ + Seq::<Char>::empty() =~= cells@);
                }
                fits = false;
            }
        }
        if fits {
            let ghost before = cells@;
            let ghost pad = Seq::new((area - used) as nat, |k: int| ' ');
            assert(fitted(text@, area as nat, i as int, used as nat) == pad);
            let mut k: u128 = used;
            while k < area
                invariant
                    used <= k <= area,
                    cells@ == before + Seq::new((k - used) as nat, |j: int| status(' ')),
                decreases area - k,
            {
                cells.push(Char::new(' ', Highlight::Status));
                proof {
                    assert(before + Seq::new((k + 1 - used) as nat, |j: int| status(' ')) =~= (before
                        + Seq::new((k - used) as nat, |j: int| status(' '))).push(status(' ')));
                }
                k = k + 1;
            }
            proof {
                assert(pad.map_values(|c: char| status(c)) =~= Seq::new((area - used) as nat, |j: int| status(' ')));
            }
        }
        (cells, None)
    }
}

impl<'a> Interactive<UiEvent, Vec<UiReaction>> for TextLine<'a> {
    open spec fn spec_interact(&self, input: &UiEvent, x: u32, y: u32, width: u32, height: u32) -> Seq<UiReaction> {
        Seq::empty()
    }

    /// A text line does not react.
    fn interact(&self, input: &UiEvent, x: u32, y: u32, width: u32, height: u32) -> (r: Vec<UiReaction>) {
        Vec::new()
    }
}

impl<'a> Widget<TerminalBuffer, UiEvent, Vec<UiReaction>> for TextLine<'a> {
    open spec fn spec_minimum_size(&self, width: u32, height: u32) -> (u32, u32) {
        (seq_width(self.string@, TERM_TAB_WIDTH) as u32, 1)
    }

    open spec fn spec_maximum_size(&self, width: u32, height: u32) -> (u32, u32) {
        (width, height)
    }

    /// As wide as its text, one row high.
    fn minimum_size(&self, width: u32, height: u32) -> (r: (u32, u32)) {
        let text = self.string;
        let n = text.unicode_len();
        let mut total: u128 = 0;
        let mut i: usize = 0;
        while i < n
            invariant
                n == text@.len(),
                i <= n,
                total == seq_width(text@.take(i as int), TERM_TAB_WIDTH),
                total <= 3 * i,
            decreases n - i,
        {
            let w = char_display_width(text.get_char(i), TERM_TAB_WIDTH);
            proof {
                assert(text@.take(i + 1).drop_last() =~= text@.take(i as int));
            }
            total = total + w as u128;
            i = i + 1;
        }
        proof {
            assert(text@.take(n as int) =~= text@);
        }
        (total as u32, 1)
    }

    fn maximum_size(&self, width: u32, height: u32) -> (r: (u32, u32)) {
        (width, height)
    }
}

/// The decimal digit `d` (below ten) as a character.
pub open spec fn digit_char(d: nat) -> char {
    if d == 0 { '0' } else if d == 1 { '1' } else if d == 2 { '2' } else if d == 3 { '3' } else if d
        == 4 { '4' } else if d == 5 { '5' } else if d == 6 { '6' } else if d == 7 { '7' } else if d
        == 8 { '8' } else { '9' }
}

fn digit_to_char(d: u128) -> (r: char)
    requires
        d < 10,
    ensures
        r == digit_char(d as nat),
{
    if d == 0 { '0' } else if d == 1 { '1' } else if d == 2 { '2' } else if d == 3 { '3' } else if d
        == 4 { '4' } else if d == 5 { '5' } else if d == 6 { '6' } else if d == 7 { '7' } else if d
        == 8 { '8' } else { '9' }
}

/// The digit cells of number `n` for place values `base`, `base / 10`, ...
/// down to one, at most `slots` of them; a place above the number's highest
/// digit shows a space.
pub open spec fn gutter_digits(n: nat, base: nat, slots: nat) -> Seq<Char>
    decreases slots,
{
    if slots == 0 || base == 0 {
        Seq::empty()
    } else {
        seq![gutter(if n / base > 0 { digit_char((n / base) % 10) } else { ' ' })] + gutter_digits(
            n,
            base / 10,
            (slots - 1) as nat,
        )
    }
}

/// `count` spaces in gutter colours.
pub open spec fn gutter_spaces(count: nat) -> Seq<Char> {
    Seq::new(count, |k: int| gutter(' '))
}

impl LineNumbers {
    /// The number shown for line `line` (counted from one).
    pub open spec fn shown_number(self, line: nat) -> nat {
        if self.relative && line != self.current {
            if line > self.current { (line - self.current) as nat } else { (self.current - line) as nat }
        } else {
            line
        }
    }

    /// The cells of one gutter row: leading spaces, the digits, and one
    /// space after them where there is room.
    pub open spec fn gutter_row(self, line: nat, width: nat, padding: nat) -> Seq<Char> {
        let space_padding: nat = if width > padding + 1 { (width - (padding + 1)) as nat } else { 0 };
        let space_padding: nat = if space_padding < 1 { 1 } else { space_padding };
        let lead: nat = if width < space_padding { width } else { space_padding };
        let digits = gutter_digits(
            self.shown_number(line),
            pow10(if padding > 0 { (padding - 1) as nat } else { 0 }),
            (width - lead) as nat,
        );
        gutter_spaces(lead) + digits + if lead + digits.len() < width {
            seq![gutter(' ')]
        } else {
            Seq::empty()
        }
    }

    /// The rows for lines `from` up to `to`.
    pub open spec fn gutter_rows(self, from: nat, to: nat, width: nat, padding: nat) -> Seq<Char>
        decreases to - from,
    {
        if from >= to {
            Seq::empty()
        } else {
            self.gutter_row(from, width, padding) + self.gutter_rows(from + 1, to, width, padding)
        }
    }

    /// Last visible line plus one, counted from one.
    pub open spec fn rows_end(self, height: u32) -> nat {
        let a = sat(self.start + 1 + height);
        let b = sat(self.total + 1);
        if a < b { a } else { b }
    }
}

/// `n`, kept within a `usize`.
pub open spec fn sat(n: int) -> nat {
    if n > usize::MAX { usize::MAX as nat } else if n < 0 { 0 } else { n as nat }
}

/// A row past the end of the document: a tilde below the digits.
pub open spec fn tilde_row(width: nat, padding: nat) -> Seq<Char> {
    Seq::new(width, |x: int| gutter(if x == padding { '~' } else { ' ' }))
}

/// `count` rows past the end of the document.
pub open spec fn tilde_rows(count: nat, width: nat, padding: nat) -> Seq<Char>
    decreases count,
{
    if count == 0 {
        Seq::empty()
    } else {
        tilde_rows((count - 1) as nat, width, padding) + tilde_row(width, padding)
    }
}

impl Drawable<TerminalBuffer> for LineNumbers {
    open spec fn spec_draw(&self, width: u32, height: u32) -> (Seq<Char>, Option<(usize, usize)>) {
        let padding = self.spec_width_number(height as usize);
        let start = sat(self.start + 1);
        let end = self.rows_end(height);
        let shown: nat = if end > start { (end - start) as nat } else { 0 };
        let tails: nat = if height > shown { (height - shown) as nat } else { 0 };
        (
            self.gutter_rows(start, end, width as nat, padding) + tilde_rows(tails, width as nat, padding),
            None,
        )
    }

    open spec fn draw_ready(&self, width: u32, height: u32) -> bool {
        true
    }

    /// One row per visible line, numbered from one (or by distance to the
    /// current line), then tilde rows down to the bottom.
    fn draw(&self, width: u32, height: u32) -> (r: TerminalBuffer) {
        let mut buffer: Vec<Char> = Vec::new();
        let padding = self.width_number(height as usize);
        let ghost pad = padding as nat;
        let w = width as usize;
        let space_padding = if w > padding + 1 { w - (padding + 1) } else { 0 };
        let space_padding = if space_padding < 1 { 1 } else { space_padding };
        let lead = if w < space_padding { w } else { space_padding };
        let start = self.start.saturating_add(1);
        let a = start.saturating_add(height as usize);
        let b = self.total.saturating_add(1);
        let end = if a < b { a } else { b };
        let top = place_value(padding);
        let mut line = start;
        proof {
            assert(self.gutter_rows(start as nat, start as nat, w as nat, pad) =~= Seq::<Char>::empty());
        }
        while line < end
            invariant
                start <= line,
                end >= start ==> line <= end,
                end < start ==> line == start,
                buffer@ == self.gutter_rows(start as nat, line as nat, w as nat, pad),
                top == pow10(if pad > 0 { (pad - 1) as nat } else { 0 }),
                pad == self.spec_width_number(height as usize),
                w == width,
                lead == (if (w as nat) < (if (if w > pad + 1 { (w - (pad + 1)) as nat } else { 0nat }) < 1 { 1nat } else { (if w > pad + 1 { (w - (pad + 1)) as nat } else { 0nat }) }) { w as nat } else { (if (if w > pad + 1 { (w - (pad + 1)) as nat } else { 0nat }) < 1 { 1nat } else { (if w > pad + 1 { (w - (pad + 1)) as nat } else { 0nat }) }) }),
            decreases end - line,
        {
            let row = self.draw_row(line, w, lead, top);
            proof {
                assert(self.gutter_rows(start as nat, (line + 1) as nat, w as nat, pad) == self.gutter_rows(start as nat, line as nat, w as nat, pad) + self.gutter_row(line as nat, w as nat, pad)) by {
                    self.lemma_rows_snoc(start as nat, line as nat, w as nat, pad);
                }
            }
            let mut row = row;
            buffer.append(&mut row);
            line = line + 1;
        }
        let shown = if end > start { end - start } else { 0 };
        let tails = if (height as usize) > shown { height as usize - shown } else { 0 };
        let ghost rows = buffer@;
        let mut t: usize = 0;
        while t < tails
            invariant
                t <= tails,
                buffer@ == rows + tilde_rows(t as nat, w as nat, pad),
                pad == padding,
            decreases tails - t,
        {
            let ghost prefix = buffer@;
            let mut x: usize = 0;
            while x < w
                invariant
                    x <= w,
                    buffer@ == prefix + tilde_row(w as nat, pad).take(x as int),
                    pad == padding,
                decreases w - x,
            {
                buffer.push(Char::new(if x == padding { '~' } else { ' ' }, Highlight::Gutter));
                proof {
                    assert(prefix + tilde_row(w as nat, pad).take(x + 1) =~= (prefix + tilde_row(w as nat, pad).take(x as int)).push(gutter(if x == padding { '~' } else { ' ' })));
                }
                x = x + 1;
            }
            proof {
                assert(tilde_row(w as nat, pad).take(w as int) =~= tilde_row(w as nat, pad));
                assert(rows + tilde_rows((t + 1) as nat, w as nat, pad) =~= rows + tilde_rows(t as nat, w as nat, pad) + tilde_row(w as nat, pad));
            }
            t = t + 1;
        }
        (buffer, None)
    }
}

/// Ten to the power `padding - 1` (one for no padding).
fn place_value(padding: usize) -> (r: u128)
    requires
        padding <= 20,
    ensures
        r == pow10(if padding > 0 { (padding - 1) as nat } else { 0 }),
{
    let mut top: u128 = 1;
    let mut p: usize = 1;
    proof {
        reveal_with_fuel(pow10, 21);
    }
    while p < padding
        invariant
            1 <= p,
            p <= 20,
            padding <= 20,
            p < padding ==> p <= 19,
            padding >= 1 ==> p <= padding,
            padding == 0 ==> p == 1,
            top == pow10((p - 1) as nat),
        decreases padding - p,
    {
        proof {
            crate::widgets::lemma_pow10_mono((p - 1) as nat, 18);
            reveal_with_fuel(pow10, 21);
        }
        top = top * 10;
        p = p + 1;
    }
    top
}

impl LineNumbers {
    proof fn lemma_rows_snoc(self, from: nat, to: nat, width: nat, padding: nat)
        requires
            from <= to,
        ensures
            self.gutter_rows(from, to + 1, width, padding) == self.gutter_rows(from, to, width, padding)
                + self.gutter_row(to, width, padding),
        decreases to - from,
    {
        if from < to {
            self.lemma_rows_snoc(from + 1, to, width, padding);
            assert(self.gutter_row(from, width, padding) + (self.gutter_rows(from + 1, to, width, padding)
                + self.gutter_row(to, width, padding)) =~= self.gutter_row(from, width, padding)
                + self.gutter_rows(from + 1, to, width, padding) + self.gutter_row(to, width, padding));
        } else {
            assert(self.gutter_rows(to + 1, to + 1, width, padding) =~= Seq::<Char>::empty());
            assert(self.gutter_rows(from, to, width, padding) =~= Seq::<Char>::empty());
            assert(self.gutter_row(to, width, padding) + Seq::<Char>::empty() =~= self.gutter_row(to, width, padding));
            assert(Seq::<Char>::empty() + self.gutter_row(to, width, padding) =~= self.gutter_row(to, width, padding));
        }
    }

    /// The cells of the gutter row for line `line`.
    fn draw_row(&self, line: usize, w: usize, lead: usize, top: u128) -> (r: Vec<Char>)
        requires
            lead <= w,
        ensures
            r@ == gutter_spaces(lead as nat) + gutter_digits(self.shown_number(line as nat), top as nat, (w - lead) as nat)
                + if lead + gutter_digits(self.shown_number(line as nat), top as nat, (w - lead) as nat).len() < w {
                seq![gutter(' ')]
            } else {
                Seq::empty()
            },
    {
        let mut buffer: Vec<Char> = Vec::new();
        let mut column: usize = 0;
        while column < lead
            invariant
                column <= lead,
                buffer@ == gutter_spaces(column as nat),
            decreases lead - column,
        {
            buffer.push(Char::new(' ', Highlight::Gutter));
            proof {
                assert(gutter_spaces((column + 1) as nat) =~= gutter_spaces(column as nat).push(gutter(' ')));
            }
            column = column + 1;
        }
        let number: u128 = if self.relative && line != self.current {
            if line > self.current { (line - self.current) as u128 } else { (self.current - line) as u128 }
        } else {
            line as u128
        };
        let ghost n = self.shown_number(line as nat);
        let ghost full = gutter_digits(n, top as nat, (w - lead) as nat);
        let ghost mid = buffer@;
        let mut base: u128 = top;
        while base > 0 && column < w
            invariant
                number == n,
                lead <= column <= w,
                mid == gutter_spaces(lead as nat),
                buffer@.len() == mid.len() + (column - lead),
                buffer@ + gutter_digits(n, base as nat, (w - column) as nat) == mid + full,
            decreases w - column,
        {
            let cell = if number / base > 0 {
                Char::new(digit_to_char((number / base) % 10), Highlight::Gutter)
            } else {
                Char::new(' ', Highlight::Gutter)
            };
            proof {
                let rest = gutter_digits(n, (base / 10) as nat, (w - column - 1) as nat);
                assert(gutter_digits(n, base as nat, (w - column) as nat) == seq![cell] + rest);
                assert(buffer@.push(cell) + rest =~= buffer@ + (seq![cell] + rest));
            }
            buffer.push(cell);
            base = base / 10;
            column = column + 1;
        }
        proof {
            assert(gutter_digits(n, base as nat, (w - column) as nat) =~= Seq::<Char>::empty());
            assert(buffer@ + Seq::<Char>::empty() =~= buffer@);
        }
        if column < w {
            buffer.push(Char::new(' ', Highlight::Gutter));
            proof {
                assert(mid + full + seq![gutter(' ')] =~= (mid + full).push(gutter(' ')));
            }
        } else {
            proof {
                assert(mid + full + Seq::<Char>::empty() =~= mid + full);
            }
        }
        buffer
    }
}

impl Interactive<UiEvent, Vec<UiReaction>> for LineNumbers {
    open spec fn spec_interact(&self, input: &UiEvent, x: u32, y: u32, width: u32, height: u32) -> Seq<UiReaction> {
        Seq::empty()
    }

    /// The gutter does not react.
    fn interact(&self, input: &UiEvent, x: u32, y: u32, width: u32, height: u32) -> (r: Vec<UiReaction>) {
        Vec::new()
    }
}

impl Widget<TerminalBuffer, UiEvent, Vec<UiReaction>> for LineNumbers {
    open spec fn spec_minimum_size(&self, width: u32, height: u32) -> (u32, u32) {
        ((self.spec_width_number(height as usize) + 2) as u32, height)
    }

    open spec fn spec_maximum_size(&self, width: u32, height: u32) -> (u32, u32) {
        ((self.spec_width_number(height as usize) + 2) as u32, height)
    }

    /// Exactly as wide as its numbers and their spaces, as high as offered.
    fn minimum_size(&self, width: u32, height: u32) -> (r: (u32, u32)) {
        (self.width(height as usize) as u32, height)
    }

    fn maximum_size(&self, width: u32, height: u32) -> (r: (u32, u32)) {
        (self.width(height as usize) as u32, height)
    }
}

/// Whether byte `p` lies in the selected range `sel`.
pub open spec fn in_selection(p: nat, sel: (usize, usize)) -> bool {
    sel.0 <= p < sel.1
}

/// A text cell, highlighted when selected.
pub open spec fn text_cell(c: char, selected: bool) -> Char {
    Char { c, color: if selected { Highlight::Selection } else { Highlight::Text } }
}

/// `count` cells of `c`.
pub open spec fn cells_of(count: nat, c: Char) -> Seq<Char> {
    Seq::new(count, |k: int| c)
}

/// Whether `g` holds a line break character.
pub open spec fn has_line_break(g: Seq<char>) -> bool {
    exists|k: int| 0 <= k < g.len() && is_line_break_char(#[trigger] g[k])
}

/// What the editor shows of the clusters of one line from the `i`-th on,
/// the cluster starting at byte `cursor` of the line and column `column`:
/// the cells, and the column reached.
///
/// Columns before `left` are scrolled away and columns from `right` on are
/// cut off; a cluster cut by either edge shows as blanks; a tab shows as
/// `tab` spaces; a line break shows as one selected space when it is
/// selected, and ends the line.
pub open spec fn line_cells(
    gs: Seq<Seq<char>>,
    i: int,
    cursor: nat,
    column: nat,
    left: nat,
    right: nat,
    tab: usize,
    line_start: nat,
    sel: (usize, usize),
) -> (Seq<Char>, nat)
    decreases gs.len() - i,
{
    if i < 0 || i >= gs.len() || column >= right {
        (Seq::empty(), column)
    } else {
        let g = gs[i];
        let selected = in_selection(cursor + line_start, sel);
        if has_line_break(g) {
            if column >= left && column < right && selected {
                (seq![text_cell(' ', true)], column + 1)
            } else {
                (Seq::empty(), column)
            }
        } else {
            let gw = seq_width(g, tab);
            let cells = if column < left && column + gw > left {
                cells_of((column + gw - left) as nat, text_cell(' ', false))
            } else if column + gw > right {
                cells_of((right - column) as nat, text_cell(' ', false))
            } else if column >= left && g == seq!['\t'] {
                cells_of(tab as nat, text_cell(' ', selected))
            } else if column >= left {
                g.map_values(|c: char| text_cell(c, selected))
            } else {
                Seq::empty()
            };
            let rest = line_cells(gs, i + 1, cursor + byte_len(g), column + gw, left, right, tab, line_start, sel);
            (cells + rest.0, rest.1)
        }
    }
}

impl TextEditor<TermLineLayoutSettings> {
    /// The selection range, or an empty one.
    pub open spec fn shown_selection(&self) -> (usize, usize) {
        match self.spec_selection_range() {
            Some(r) => r,
            None => (0, 0),
        }
    }

    /// The cells of viewport row `line_num` (a document line), `width` wide.
    pub open spec fn row_cells(&self, line_num: nat, width: nat) -> Seq<Char> {
        let s = self.chars();
        let left = self.scroll_columns as nat;
        let right = left + width;
        let (cells, column) = if line_num < line_count(s) {
            line_cells(
                graphemes_of(line_text(s, line_num)),
                0,
                0,
                0,
                left,
                right,
                self.tab_width,
                line_byte(s, line_num),
                self.shown_selection(),
            )
        } else {
            (Seq::empty(), 0nat)
        };
        let reached = if column > left { column } else { left };
        cells + cells_of(if right > reached { (right - reached) as nat } else { 0 }, text_cell(' ', false))
    }

    /// The rows `from` up to `to` of the viewport.
    pub open spec fn rows_cells(&self, from: nat, to: nat, width: nat) -> Seq<Char>
        decreases to - from,
    {
        if from >= to {
            Seq::empty()
        } else {
            self.rows_cells(from, (to - 1) as nat, width) + self.row_cells((to - 1) as nat, width)
        }
    }

    /// Whether `g` holds a line break.
    fn grapheme_breaks_line(g: &str) -> (r: bool)
        ensures
            r == has_line_break(g@),
    {
        let n = g.unicode_len();
        let mut k: usize = 0;
        while k < n
            invariant
                n == g@.len(),
                k <= n,
                forall|j: int| 0 <= j < k ==> !is_line_break_char(#[trigger] g@[j]),
            decreases n - k,
        {
            if crate::unicode::is_newline(g.get_char(k)) {
                return true;
            }
            k = k + 1;
        }
        false
    }

    /// Pushes `count` copies of `c`.
    fn push_cells(buffer: &mut Vec<Char>, count: u128, c: Char)
        ensures
            final(buffer)@ == old(buffer)@ + cells_of(count as nat, c),
    {
        let ghost start = buffer@;
        let mut k: u128 = 0;
        while k < count
            invariant
                k <= count,
                buffer@ == start + cells_of(k as nat, c),
            decreases count - k,
        {
            buffer.push(c);
            proof {
                assert(start + cells_of((k + 1) as nat, c) =~= (start + cells_of(k as nat, c)).push(c));
            }
            k = k + 1;
        }
    }

    /// Draws one viewport row.
    fn draw_row(&self, line_num: usize, width: u32, sel: (usize, usize)) -> (r: Vec<Char>)
        requires
            self.wf(),
            self.layout_settings.tab_width == self.tab_width,
            sel == self.shown_selection(),
        ensures
            r@ == self.row_cells(line_num as nat, width as nat),
    {
        let mut buffer: Vec<Char> = Vec::new();
        let left: u128 = self.scroll_columns as u128;
        let right: u128 = left + width as u128;
        let mut column: u128 = 0;
        let ghost s = self.chars();
        let count = self.len_lines();
        if line_num < count {
            proof {
                self.lemma_line_facts(line_num as nat);
                lemma_line_start_bounds(s, line_num as nat);
            }
            let line_start = crate::document::rope_line_to_byte(&self.text, line_num);
            let line = crate::document::rope_line(&self.text, line_num);
            let gs = graphemes(line.as_str());
            let ghost g = gs.deep_view();
            let ghost full = line_cells(g, 0, 0, 0, left as nat, right as nat, self.tab_width, line_start as nat, sel);
            let mut i: usize = 0;
            let mut cursor: u128 = 0;
            let mut going = true;
            proof {
                assert(g.take(0) =~= Seq::<Seq<char>>::empty());
                assert(g.take(0).flatten_alt() =~= Seq::<char>::empty());
                assert(vstd::utf8::encode_utf8(Seq::<char>::empty()) =~= Seq::<u8>::empty());
            }
            while going && i < gs.len() && column < right
                invariant
                    g == gs.deep_view(),
                    g == graphemes_of(line@),
                    g.flatten_alt() == line@,
                    line@ == line_text(s, line_num as nat),
                    line@.len() * (self.tab_width + 3) <= usize::MAX,
                    i <= gs.len(),
                    cursor == byte_len(g.take(i as int).flatten_alt()),
                    cursor <= byte_len(line@),
                    byte_len(line@) <= usize::MAX,
                    left == self.scroll_columns,
                    right == left + width,
                    going ==> buffer@ + line_cells(g, i as int, cursor as nat, column as nat, left as nat, right as nat, self.tab_width, line_start as nat, sel).0 == full.0,
                    going ==> line_cells(g, i as int, cursor as nat, column as nat, left as nat, right as nat, self.tab_width, line_start as nat, sel).1 == full.1,
                    !going ==> buffer@ == full.0 && column == full.1,
                    column <= right + usize::MAX,
                decreases gs.len() - i + if going { 1int } else { 0int },
            {
                let piece = gs[i].as_str();
                proof {
                    assert(g[i as int] == gs@[i as int]@);
                    crate::unicode::lemma_prefix_step(g, i as int);
                    crate::unicode::lemma_prefix_within(g, i + 1);
                    crate::unicode::lemma_byte_len_concat(g.take(i as int).flatten_alt(), g[i as int]);
                    assert(g[i as int].len() <= line@.len());
                    assert(g[i as int].len() * (self.tab_width + 3) <= line@.len() * (self.tab_width + 3)) by (nonlinear_arith)
                        requires g[i as int].len() <= line@.len();
                }
                let selected = sel.0 as u128 <= cursor + line_start as u128 && cursor + (line_start as u128) < sel.1 as u128;
                if Self::grapheme_breaks_line(piece) {
                    if column >= left && column < right && selected {
                        buffer.push(Char::new_text(' ', true));
                        column = column + 1;
                        proof {
                            assert(buffer@ =~= full.0);
                        }
                    } else {
                        proof {
                            assert(buffer@ + Seq::<Char>::empty() =~= buffer@);
                        }
                    }
                    going = false;
                } else {
                    let gw = str_width(piece, self.tab_width) as u128;
                    let ghost before = buffer@;
                    if column < left && column + gw > left {
                        Self::push_cells(&mut buffer, column + gw - left, Char::new_text(' ', false));
                    } else if column + gw > right {
                        Self::push_cells(&mut buffer, right - column, Char::new_text(' ', false));
                    } else if column >= left && piece.unicode_len() == 1 && piece.get_char(0) == '\t' {
                        proof {
                            assert(piece@ =~= seq!['\t']);
                        }
                        Self::push_cells(&mut buffer, self.tab_width as u128, Char::new_text(' ', selected));
                    } else if column >= left {
                        proof {
                            if piece@.len() == 1 && piece@[0] == '\t' {
                                assert(piece@ =~= seq!['\t']);
                            }
                            if piece@ == seq!['\t'] {
                                assert(piece@.len() == 1);
                            }
                        }
                        let n = piece.unicode_len();
                        let mut k: usize = 0;
                        while k < n
                            invariant
                                n == piece@.len(),
                                k <= n,
                                buffer@ == before + piece@.take(k as int).map_values(|c: char| text_cell(c, selected)),
                            decreases n - k,
                        {
                            buffer.push(Char::new_text(piece.get_char(k), selected));
                            proof {
                                assert(before + piece@.take(k + 1).map_values(|c: char| text_cell(c, selected)) =~= (before
                                    + piece@.take(k as int).map_values(|c: char| text_cell(c, selected))).push(text_cell(piece@[k as int], selected)));
                            }
                            k = k + 1;
                        }
                        proof {
                            assert(piece@.take(n as int) =~= piece@);
                        }
                    } else {
                        proof {
                            assert(before + Seq::<Char>::empty() =~= before);
                        }
                    }
                    proof {
                        let rest = line_cells(g, i + 1, (cursor + byte_len(piece@)) as nat, (column + gw) as nat, left as nat, right as nat, self.tab_width, line_start as nat, sel);
                        assert(buffer@ + rest.0 =~= before + (buffer@.skip(before.len() as int) + rest.0));
                    }
                    cursor = cursor + piece.len() as u128;
                    column = column + gw;
                    i = i + 1;
                }
            }
            if going {
                proof {
                    assert(line_cells(g, i as int, cursor as nat, column as nat, left as nat, right as nat, self.tab_width, line_start as nat, sel).0 =~= Seq::<Char>::empty());
                    assert(buffer@ + Seq::<Char>::empty() =~= buffer@);
                }
            }
        }
        let reached = if column > left { column } else { left };
        let fill = if right > reached { right - reached } else { 0 };
        Self::push_cells(&mut buffer, fill, Char::new_text(' ', false));
        buffer
    }
}

impl TextEditor<TermLineLayoutSettings> {
    /// Where the cursor shows within the viewport, if it is not scrolled past.
    pub open spec fn spec_relative_cursor_pos(&self) -> Option<(usize, usize)> {
        let x = self.spec_cursor_column();
        let y = self.spec_cursor_line();
        if x >= self.scroll_columns && y >= self.scroll_lines {
            Some(((x - self.scroll_columns) as usize, (y - self.scroll_lines) as usize))
        } else {
            None
        }
    }
}

impl Drawable<TerminalBuffer> for TextEditor<TermLineLayoutSettings> {
    open spec fn spec_draw(&self, width: u32, height: u32) -> (Seq<Char>, Option<(usize, usize)>) {
        let last = if self.scroll_lines + height > usize::MAX {
            usize::MAX as nat
        } else {
            (self.scroll_lines + height) as nat
        };
        (
            self.rows_cells(self.scroll_lines as nat, last, width as nat),
            self.spec_relative_cursor_pos(),
        )
    }

    open spec fn draw_ready(&self, width: u32, height: u32) -> bool {
        &&& self.wf()
        &&& self.layout_settings.tab_width == self.tab_width
    }

    /// The visible rows of the document, with the selection highlighted,
    /// and the cursor's position in the viewport.
    fn draw(&self, width: u32, height: u32) -> (r: TerminalBuffer) {
        let mut buffer: Vec<Char> = Vec::new();
        let sel = match self.get_selection_range() {
            Some(r) => r,
            None => (0, 0),
        };
        let first = self.scroll_lines;
        let last = self.scroll_lines.saturating_add(height as usize);
        let mut line_num = first;
        proof {
            assert(self.rows_cells(first as nat, first as nat, width as nat) =~= Seq::<Char>::empty());
        }
        while line_num < last
            invariant
                first <= line_num <= last,
                first == self.scroll_lines,
                self.wf(),
                self.layout_settings.tab_width == self.tab_width,
                sel == self.shown_selection(),
                buffer@ == self.rows_cells(first as nat, line_num as nat, width as nat),
            decreases last - line_num,
        {
            let mut row = self.draw_row(line_num, width, sel);
            buffer.append(&mut row);
            line_num = line_num + 1;
        }
        let pos = self.get_relative_cursor_pos();
        (buffer, pos)
    }
}

/// `height` as a line count, kept within an `isize`.
pub open spec fn page(height: u32) -> isize {
    if height <= isize::MAX { height as isize } else { isize::MAX }
}

/// What the editor region asks for in response to `event`: first that the
/// scroll be fitted to its size, then, for a click inside it, that the cursor
/// go where it was clicked, or, for a page key, a scroll by its height.
pub open spec fn editor_reactions(event: UiEvent, x: u32, y: u32, width: u32, height: u32) -> Seq<UiReaction> {
    let fix = seq![UiReaction::FixScrol(width as usize, height as usize)];
    match event {
        UiEvent::Clicked(cx, cy, select) => {
            let click_x = cx - x;
            let click_y = cy - y;
            if 0 <= click_x < width && 0 <= click_y < height {
                fix.push(UiReaction::SetRelativeCursorPos(click_x as usize, click_y as usize, select))
            } else {
                fix
            }
        },
        UiEvent::ScrollPage(up) => fix.push(
            UiReaction::ScrollBy(if up { -page(height) as isize } else { page(height) }),
        ),
        UiEvent::Nothing => fix,
    }
}

impl Interactive<UiEvent, Vec<UiReaction>> for TextEditor<TermLineLayoutSettings> {
    open spec fn spec_interact(&self, input: &UiEvent, x: u32, y: u32, width: u32, height: u32) -> Seq<UiReaction> {
        editor_reactions(*input, x, y, width, height)
    }

    fn interact(&self, event: &UiEvent, x: u32, y: u32, width: u32, height: u32) -> (r: Vec<UiReaction>) {
        let mut out: Vec<UiReaction> = Vec::new();
        out.push(UiReaction::FixScrol(width as usize, height as usize));
        match *event {
            UiEvent::Clicked(cx, cy, select) => {
                let click_x: i128 = cx as i128 - x as i128;
                let click_y: i128 = cy as i128 - y as i128;
                if click_x >= 0 && click_x < width as i128 && click_y >= 0 && click_y < height as i128 {
                    out.push(UiReaction::SetRelativeCursorPos(click_x as usize, click_y as usize, select));
                }
            },
            UiEvent::ScrollPage(up) => {
                let h: isize = if height as i128 <= isize::MAX as i128 { height as isize } else { isize::MAX };
                out.push(UiReaction::ScrollBy(if up { -h } else { h }));
            },
            UiEvent::Nothing => {},
        }
        proof {
            assert(out@ =~= editor_reactions(*event, x, y, width, height));
        }
        out
    }
}

impl Widget<TerminalBuffer, UiEvent, Vec<UiReaction>> for TextEditor<TermLineLayoutSettings> {
    open spec fn spec_minimum_size(&self, width: u32, height: u32) -> (u32, u32) {
        (width, height)
    }

    open spec fn spec_maximum_size(&self, width: u32, height: u32) -> (u32, u32) {
        (width, height)
    }

    /// The editor takes whatever it is offered.
    fn minimum_size(&self, width: u32, height: u32) -> (r: (u32, u32)) {
        (width, height)
    }

    fn maximum_size(&self, width: u32, height: u32) -> (r: (u32, u32)) {
        (width, height)
    }
}

} // verus!
