//! The text-editing engine: document, cursor, selection, history, scrolling.

use crate::document::{
    char_of_byte, lemma_char_of_byte_mono, lemma_char_of_prefix, lemma_line_of_char_bound,
    lemma_line_start_bounds, lemma_line_start_le, line_count, lemma_line_of_line_start, line_of_char, line_start, rope_byte_to_char,
    rope_byte_to_line, rope_chars, rope_from_str, rope_len_bytes, rope_remove, rope_slice_string,
    rope_get_char, rope_to_string, rope_len_lines, rope_len_chars, lemma_byte_within_char,
    lemma_char_before_next_line, rope_insert, rope_line, rope_line_to_byte,
};
use crate::unicode::{byte_len, graphemes_of, lemma_prefix_within, move_grapheme, moved, next_boundary, next_from, prev_boundary, prev_from, boundary};
use ropey::Rope;
use std::collections::VecDeque;
use vstd::prelude::*;
use vstd::math::min;
use vstd::utf8::encode_utf8;

verus! {

/// Where one grapheme cluster of a line sits: its columns and its byte offset
/// within the line.
pub struct GraphemePosition {
    pub start_column: usize,
    pub end_column: usize,
    pub cursor: usize,
}

/// A layout of a line is well formed when its clusters start at the line's
/// first byte and first column, follow each other without gaps in columns, and
/// sit at strictly increasing byte offsets inside the line.
pub open spec fn layout_wf(l: Seq<GraphemePosition>, line: Seq<char>) -> bool {
    &&& (l.len() == 0 <==> line.len() == 0)
    &&& l.len() > 0 ==> l[0].cursor == 0 && l[0].start_column == 0
    &&& forall|i: int| 0 <= i < l.len() ==> #[trigger] l[i].start_column <= l[i].end_column
    &&& forall|i: int| 0 <= i < l.len() ==> #[trigger] l[i].cursor < byte_len(line)
    &&& forall|i: int|
        0 <= i < l.len() - 1 ==> #[trigger] l[i].end_column == l[i + 1].start_column
    &&& forall|i: int, j: int| 0 <= i < j < l.len() ==> l[i].cursor < l[j].cursor
}

/// Turns one line of text into the positions of its grapheme clusters.
pub trait LineLayout {
    /// The positions that `layout_line` gives for `line`.
    spec fn spec_layout(&self, line: Seq<char>) -> Seq<GraphemePosition>;

    /// How many lines' characters, times this, must fit in a `usize`.
    spec fn spec_width_factor(&self) -> nat;

    /// Whether `a + b` characters, times the width factor, fit in a `usize`.
    fn width_fits(&self, a: usize, b: usize) -> (r: bool)
        ensures
            r == ((a + b) * self.spec_width_factor() <= usize::MAX),
    ;

    fn layout_line(&self, line: &str) -> (r: Vec<GraphemePosition>)
        requires
            line@.len() * self.spec_width_factor() <= usize::MAX,
            byte_len(line@) <= usize::MAX,
        ensures
            r@ == self.spec_layout(line@),
            layout_wf(r@, line@),
    ;
}

/// One recorded edit, with what it needs to be undone exactly.
#[derive(Debug, PartialEq, Eq, PartialOrd, Ord)]
pub enum EditorAction {
    /// The text removed at a byte offset.
    Delete(usize, String),
    /// The text inserted at a byte offset.
    Insert(usize, String),
}

/// What an edit action is, as plain values.
pub enum EditView {
    Delete(usize, Seq<char>),
    Insert(usize, Seq<char>),
}

impl View for EditorAction {
    type V = EditView;

    open spec fn view(&self) -> EditView {
        match self {
            EditorAction::Delete(o, t) => EditView::Delete(*o, t@),
            EditorAction::Insert(o, t) => EditView::Insert(*o, t@),
        }
    }
}

/// `t` inserted into `s` before the character that byte `o` belongs to.
pub open spec fn insert_at(s: Seq<char>, o: nat, t: Seq<char>) -> Seq<char> {
    let k = char_of_byte(s, o) as int;
    s.take(k) + t + s.skip(k)
}

/// `s` without the characters that bytes `a` up to `b` belong to.
pub open spec fn remove_bytes(s: Seq<char>, a: nat, b: nat) -> Seq<char> {
    s.take(char_of_byte(s, a) as int) + s.skip(char_of_byte(s, b) as int)
}

/// The document after `a` is done to `s`.
pub open spec fn apply_action(a: EditView, s: Seq<char>) -> Seq<char> {
    match a {
        EditView::Insert(o, t) => insert_at(s, o as nat, t),
        EditView::Delete(o, t) => remove_bytes(s, o as nat, (o + byte_len(t)) as nat),
    }
}

/// The document after `a` is undone on `s`.
pub open spec fn revert_action(a: EditView, s: Seq<char>) -> Seq<char> {
    match a {
        EditView::Insert(o, t) => remove_bytes(s, o as nat, (o + byte_len(t)) as nat),
        EditView::Delete(o, t) => insert_at(s, o as nat, t),
    }
}

/// The bytes of the text that an action carries.
pub open spec fn action_bytes(a: EditView) -> nat {
    match a {
        EditView::Delete(_, t) => byte_len(t),
        EditView::Insert(_, t) => byte_len(t),
    }
}

/// Whether byte `o` starts a character of `s` (or is its end).
pub open spec fn is_char_offset(s: Seq<char>, o: nat) -> bool {
    exists|k: int| 0 <= k <= s.len() && byte_len(#[trigger] s.take(k)) == o
}

/// Whether `a` is an edit that the editor records on document `s`: its
/// offset starts a character, and a deletion carries exactly the text that
/// follows that offset.
pub open spec fn recordable(a: EditView, s: Seq<char>) -> bool {
    match a {
        EditView::Insert(o, t) => is_char_offset(s, o as nat),
        EditView::Delete(o, t) => {
            let k = char_of_byte(s, o as nat) as int;
            &&& is_char_offset(s, o as nat)
            &&& k + t.len() <= s.len()
            &&& s.subrange(k, k + t.len()) == t
        },
    }
}

/// The document after the actions `acts` are done to `s` in order.
pub open spec fn apply_all(acts: Seq<EditView>, s: Seq<char>) -> Seq<char>
    decreases acts.len(),
{
    if acts.len() == 0 {
        s
    } else {
        apply_action(acts.last(), apply_all(acts.drop_last(), s))
    }
}

/// The document after the actions `acts` are undone on `s`, last first.
pub open spec fn revert_all(acts: Seq<EditView>, s: Seq<char>) -> Seq<char>
    decreases acts.len(),
{
    if acts.len() == 0 {
        s
    } else {
        revert_all(acts.drop_last(), revert_action(acts.last(), s))
    }
}

/// Whether every action of `acts` is recordable on the document it was done to.
pub open spec fn recorded_from(acts: Seq<EditView>, s: Seq<char>) -> bool
    decreases acts.len(),
{
    acts.len() == 0 || (recorded_from(acts.drop_last(), s) && recordable(
        acts.last(),
        apply_all(acts.drop_last(), s),
    ))
}

/// How many actions fall off the front of a history of `len` actions, bounded
/// by `size`: never more than the excess, never more than the redo position
/// `current`, and never more than the saved position.
pub open spec fn evictions(len: nat, size: nat, current: nat, save: Option<usize>) -> nat {
    let excess: nat = if len > size { (len - size) as nat } else { 0 };
    let m: nat = if excess < current { excess } else { current };
    match save {
        Some(x) => if (x as nat) < m { x as nat } else { m },
        None => m,
    }
}

/// The editor: its document, cursor, selection, scroll offsets and history.
pub struct TextEditor<L: LineLayout> {
    pub text: Rope,
    pub cursor: usize,
    pub target_column: usize,
    pub scroll_lines: usize,
    pub scroll_columns: usize,
    pub layout_settings: L,
    pub selection_anchor: Option<usize>,
    pub history: VecDeque<EditorAction>,
    pub save_anchor: Option<usize>,
    pub current_history: usize,
    pub history_size: usize,
    pub tab_width: usize,
}

/// The number of actions a new editor keeps.
pub const DEFAULT_HISTORY_SIZE: usize = 16384;

impl<L: LineLayout> TextEditor<L> {
    /// The document's characters.
    pub open spec fn chars(&self) -> Seq<char> {
        rope_chars(self.text)
    }

    /// The recorded actions, as plain values.
    pub open spec fn history_view(&self) -> Seq<EditView> {
        self.history@.map_values(|a: EditorAction| a@)
    }

    /// `new` holds the history after `a` was recorded on this editor: later
    /// actions dropped, `a` added, and then the oldest evicted as the size and
    /// the save anchor allow.
    pub open spec fn records(&self, new: &Self, a: EditView) -> bool {
        let h1 = self.history_view().take(self.current_history as int).push(a);
        let n = evictions(h1.len(), self.history_size as nat, (self.current_history + 1) as nat, self.save_anchor);
        &&& new.history_view() == h1.skip(n as int)
        &&& new.current_history == self.current_history + 1 - n
        &&& new.save_anchor == (match self.save_anchor {
            Some(x) => Some((x - n) as usize),
            None => None,
        })
    }

    /// `new` has the same history, redo position and save anchor.
    pub open spec fn keeps_history(&self, new: &Self) -> bool {
        &&& new.history_view() == self.history_view()
        &&& new.current_history == self.current_history
        &&& new.save_anchor == self.save_anchor
    }

    /// The document's length in bytes.
    pub open spec fn len(&self) -> nat {
        byte_len(self.chars())
    }

    /// The cursor and the anchor lie in the document, the redo position in
    /// the history, and every line can be laid out.
    pub open spec fn wf(&self) -> bool {
        &&& self.cursor <= self.len()
        &&& self.len() <= usize::MAX
        &&& self.selection_anchor matches Some(a) ==> a <= self.len()
        &&& self.current_history <= self.history@.len()
        &&& forall|i: int|
            0 <= i < self.history@.len() ==> action_bytes(#[trigger] self.history@[i]@) <= usize::MAX
        &&& self.chars().len() * self.layout_settings.spec_width_factor() <= usize::MAX
        &&& self.layout_settings.spec_width_factor() >= 3
    }

    /// The selected byte range, if a selection is active.
    pub open spec fn spec_selection_range(&self) -> Option<(usize, usize)> {
        match self.selection_anchor {
            Some(a) => Some(if a > self.cursor { (self.cursor, a) } else { (a, self.cursor) }),
            None => None,
        }
    }

    /// An editor over `content`; a file that does not exist yet starts
    /// unsaved, any other starts saved.
    pub fn new(content: &str, layout_settings: L, tab_width: usize, newly_loaded: bool) -> (r: Self)
        requires
            content@.len() * layout_settings.spec_width_factor() <= usize::MAX,
            layout_settings.spec_width_factor() >= 3,
        ensures
            r.wf(),
            r.chars() == content@,
            r.cursor == 0,
            r.target_column == 0,
            r.scroll_lines == 0,
            r.scroll_columns == 0,
            r.selection_anchor is None,
            r.history@.len() == 0,
            r.current_history == 0,
            r.save_anchor == (if newly_loaded { None } else { Some(0usize) }),
            r.history_size == DEFAULT_HISTORY_SIZE,
            r.tab_width == tab_width,
            r.layout_settings == layout_settings,
    {
        let text = rope_from_str(content);
        let _ = rope_len_bytes(&text);
        Self {
            text,
            cursor: 0,
            target_column: 0,
            scroll_lines: 0,
            scroll_columns: 0,
            layout_settings,
            selection_anchor: None,
            history: VecDeque::new(),
            save_anchor: if newly_loaded { None } else { Some(0) },
            current_history: 0,
            history_size: DEFAULT_HISTORY_SIZE,
            tab_width,
        }
    }

    /// Records `change` at the redo position: later actions are dropped, and
    /// then actions fall off the front while the history is over its size,
    /// as long as that strands neither the redo position nor the save anchor.
    pub fn do_change(&mut self, change: EditorAction)
        requires
            old(self).wf(),
            action_bytes(change@) <= usize::MAX,
        ensures
            final(self).wf(),
            ({
                let h1 = old(self).history_view().take(old(self).current_history as int).push(change@);
                let n = evictions(
                    h1.len(),
                    old(self).history_size as nat,
                    (old(self).current_history + 1) as nat,
                    old(self).save_anchor,
                );
                &&& final(self).history_view() == h1.skip(n as int)
                &&& final(self).current_history == old(self).current_history + 1 - n
                &&& final(self).save_anchor == (match old(self).save_anchor {
                    Some(x) => Some((x - n) as usize),
                    None => None,
                })
            }),
            final(self).text == old(self).text,
            final(self).cursor == old(self).cursor,
            final(self).selection_anchor == old(self).selection_anchor,
            final(self).target_column == old(self).target_column,
            final(self).scroll_lines == old(self).scroll_lines,
            final(self).scroll_columns == old(self).scroll_columns,
            final(self).history_size == old(self).history_size,
            final(self).tab_width == old(self).tab_width,
            final(self).layout_settings == old(self).layout_settings,
    {
        let ghost h0 = self.history@;
        let ghost c0 = self.current_history;
        while self.history.len() > self.current_history
            invariant
                self.text == old(self).text,
                self.cursor == old(self).cursor,
                self.selection_anchor == old(self).selection_anchor,
                self.target_column == old(self).target_column,
                self.scroll_lines == old(self).scroll_lines,
                self.scroll_columns == old(self).scroll_columns,
                self.layout_settings == old(self).layout_settings,
                self.history_size == old(self).history_size,
                self.tab_width == old(self).tab_width,
                self.save_anchor == old(self).save_anchor,
                old(self).wf(),
                h0 == old(self).history@,
                c0 == old(self).current_history,
                self.current_history == c0,
                c0 <= self.history@.len() <= h0.len(),
                self.history@ == h0.take(self.history@.len() as int),
            decreases self.history@.len(),
        {
            self.history.pop_back();
        }
        assert(self.history@ =~= h0.take(c0 as int));
        self.history.push_back(change);
        self.current_history = self.history.len();
        let ghost h1 = self.history@;
        assert(self.history_view() =~= old(self).history_view().take(c0 as int).push(change@));
        let ghost s0 = self.save_anchor;
        let ghost n = evictions(h1.len(), self.history_size as nat, (c0 + 1) as nat, s0);
        let ghost mut e: nat = 0;
        assert(h1.skip(0) =~= h1);
        while self.current_history > 0 && save_allows_eviction(self.save_anchor) && self.history.len()
            > self.history_size
            invariant
                self.text == old(self).text,
                self.cursor == old(self).cursor,
                self.selection_anchor == old(self).selection_anchor,
                self.target_column == old(self).target_column,
                self.scroll_lines == old(self).scroll_lines,
                self.scroll_columns == old(self).scroll_columns,
                self.layout_settings == old(self).layout_settings,
                self.history_size == old(self).history_size,
                self.tab_width == old(self).tab_width,
                old(self).wf(),
                s0 == old(self).save_anchor,
                h1.len() == c0 + 1,
                n == evictions(h1.len(), self.history_size as nat, (c0 + 1) as nat, s0),
                e <= n,
                self.history@ == h1.skip(e as int),
                self.current_history == c0 + 1 - e,
                self.save_anchor == (match s0 {
                    Some(x) => Some((x - e) as usize),
                    None => None,
                }),
                s0 matches Some(x) ==> e <= x,
            decreases self.current_history,
        {
            self.current_history = self.current_history - 1;
            self.save_anchor = match self.save_anchor {
                Some(x) => Some(x - 1),
                None => None,
            };
            self.history.pop_front();
            proof {
                e = e + 1;
                assert(self.history@ =~= h1.skip(e as int));
            }
        }
        assert(e == n);
        assert(self.history_view() =~= h1.map_values(|a: EditorAction| a@).skip(n as int));
        assert forall|i: int| 0 <= i < self.history@.len() implies action_bytes(
            #[trigger] self.history@[i]@,
        ) <= usize::MAX by {
            let j = i + n;
            assert(self.history@[i] == h1[j]);
            if j < c0 {
                assert(h1[j] == old(self).history@[j]);
            }
        }
    }

    /// Drops the selection anchor.
    pub fn clear_selection(&mut self)
        ensures
            final(self).selection_anchor is None,
            final(self).text == old(self).text,
            final(self).cursor == old(self).cursor,
            final(self).target_column == old(self).target_column,
            final(self).scroll_lines == old(self).scroll_lines,
            final(self).scroll_columns == old(self).scroll_columns,
            final(self).layout_settings == old(self).layout_settings,
            final(self).history == old(self).history,
            final(self).save_anchor == old(self).save_anchor,
            final(self).current_history == old(self).current_history,
            final(self).history_size == old(self).history_size,
            final(self).tab_width == old(self).tab_width,
    {
        self.selection_anchor = None;
    }

    /// The line that holds the cursor.
    pub open spec fn spec_cursor_line(&self) -> nat {
        cursor_line_of(self.chars(), self.cursor as nat)
    }

    /// The text of line `l`, its line break included.
    pub open spec fn spec_line(&self, l: nat) -> Seq<char> {
        line_text(self.chars(), l)
    }

    /// The byte at which line `l` starts.
    pub open spec fn spec_line_byte(&self, l: nat) -> nat {
        line_byte(self.chars(), l)
    }

    /// The visual column of the cursor: where the last cluster of its line
    /// that starts before it ends.
    pub open spec fn spec_cursor_column(&self) -> usize {
        let l = self.spec_cursor_line();
        column_before(
            self.layout_settings.spec_layout(self.spec_line(l)),
            self.cursor - self.spec_line_byte(l),
        )
    }

    /// The line of the cursor, and where that line and its text start.
    fn cursor_line(&self) -> (r: (usize, usize, String))
        requires
            self.wf(),
        ensures
            r.0 == self.spec_cursor_line(),
            r.0 < line_count(self.chars()),
            r.1 == self.spec_line_byte(r.0 as nat),
            r.1 <= self.cursor,
            r.2@ == self.spec_line(r.0 as nat),
            r.1 + byte_len(r.2@) <= self.len(),
            r.2@.len() * self.layout_settings.spec_width_factor() <= usize::MAX,
            byte_len(r.2@) <= usize::MAX,
    {
        let ghost s = self.chars();
        let line_num = rope_byte_to_line(&self.text, self.cursor);
        proof {
            let k = char_of_byte(s, self.cursor as nat);
            lemma_char_of_byte_mono(s, self.cursor as nat, self.cursor as nat);
            lemma_line_of_char_bound(s, k as int);
        }
        let line = rope_line(&self.text, line_num);
        let start = rope_line_to_byte(&self.text, line_num);
        proof {
            self.lemma_line_facts(line_num as nat);
            let k = char_of_byte(s, self.cursor as nat);
            lemma_line_start_le(s, k as int);
            lemma_line_start_bounds(s, line_num as nat);
            assert(line_num as nat == line_of_char(s, k));
            lemma_prefix_byte_mono(s, line_start(s, line_num as nat), k as int);
            lemma_byte_of_char_le(s, self.cursor as nat);
        }
        (line_num, start, line)
    }

    /// What a line's position says about its text.
    pub proof fn lemma_line_facts(&self, l: nat)
        requires
            self.wf(),
        ensures
            self.spec_line_byte(l) + byte_len(self.spec_line(l)) <= self.len(),
            self.spec_line(l).len() * self.layout_settings.spec_width_factor() <= usize::MAX,
            self.spec_line(l).len() <= self.chars().len(),
    {
        let s = self.chars();
        lemma_line_start_bounds(s, l);
        let a = line_start(s, l);
        let b = line_start(s, l + 1);
        assert(s.take(b) =~= s.take(a) + s.subrange(a, b));
        crate::unicode::lemma_byte_len_concat(s.take(a), s.subrange(a, b));
        lemma_char_of_prefix(s, b);
        let f = self.layout_settings.spec_width_factor();
        assert((b - a) * f <= s.len() * f) by (nonlinear_arith)
            requires b - a <= s.len();
    }

    /// The visual column of the cursor within its line.
    pub fn get_cursor_column(&self) -> (r: usize)
        requires
            self.wf(),
        ensures
            r == self.spec_cursor_column(),
    {
        let (_, start, line) = self.cursor_line();
        let layout = self.layout_settings.layout_line(line.as_str());
        let local = self.cursor - start;
        let mut column: usize = 0;
        let mut i: usize = 0;
        while i < layout.len() && layout[i].cursor < local
            invariant
                i <= layout@.len(),
                count_before(layout@, local as int, 0) == i + count_before(layout@, local as int, i as int),
                i == 0 ==> column == 0,
                i > 0 ==> column == layout@[i - 1].end_column,
            decreases layout@.len() - i,
        {
            column = layout[i].end_column;
            i = i + 1;
        }
        column
    }

    /// Inserts `string` at byte `start`. Any selection is cleared first. The
    /// insertion is recorded when asked and `string` is not empty. A cursor
    /// after `start` moves along with the text; `move_cursor_after` puts it
    /// right after the inserted text; `store_cursor` makes its column the
    /// target column.
    pub fn insert_string(
        &mut self,
        start: usize,
        string: &str,
        record: bool,
        store_cursor: bool,
        move_cursor_after: bool,
    )
        requires
            old(self).wf(),
            start <= old(self).len(),
            (old(self).chars().len() + string@.len()) * old(self).layout_settings.spec_width_factor()
                <= usize::MAX,
        ensures
            final(self).wf(),
            final(self).chars() == insert_at(old(self).chars(), start as nat, string@),
            final(self).selection_anchor is None,
            final(self).cursor == (if move_cursor_after {
                start + byte_len(string@)
            } else if old(self).cursor >= start {
                old(self).cursor + byte_len(string@)
            } else {
                old(self).cursor as int
            }),
            (record && string@.len() > 0) ==> {
                let h1 = old(self).history_view().take(old(self).current_history as int).push(
                    EditView::Insert(start, string@),
                );
                let n = evictions(
                    h1.len(),
                    old(self).history_size as nat,
                    (old(self).current_history + 1) as nat,
                    old(self).save_anchor,
                );
                &&& final(self).history_view() == h1.skip(n as int)
                &&& final(self).current_history == old(self).current_history + 1 - n
                &&& final(self).save_anchor == (match old(self).save_anchor {
                    Some(x) => Some((x - n) as usize),
                    None => None,
                })
            },
            !(record && string@.len() > 0) ==> {
                &&& final(self).history_view() == old(self).history_view()
                &&& final(self).current_history == old(self).current_history
                &&& final(self).save_anchor == old(self).save_anchor
            },
            !store_cursor ==> final(self).target_column == old(self).target_column,
            store_cursor ==> final(self).target_column == final(self).spec_cursor_column(),
            final(self).scroll_lines == old(self).scroll_lines,
            final(self).scroll_columns == old(self).scroll_columns,
            final(self).history_size == old(self).history_size,
            final(self).tab_width == old(self).tab_width,
            final(self).layout_settings == old(self).layout_settings,
    {
        self.clear_selection();
        let ghost s0 = self.chars();
        let start_char = rope_byte_to_char(&self.text, start);
        proof {
            lemma_char_of_byte_mono(s0, start as nat, start as nat);
        }
        rope_insert(&mut self.text, start_char, string);
        proof {
            let s1 = self.chars();
            assert(s1 =~= insert_at(s0, start as nat, string@));
            lemma_insert_len(s0, start as nat, string@);
        }
        let _ = rope_len_bytes(&self.text);
        proof {
            assert(byte_len(string@) <= usize::MAX);
            assert(self.history_view() == old(self).history_view());
        }
        if record && !string.is_empty() {
            self.do_change(EditorAction::Insert(start, string.to_string()));
        }
        let n = string.len();
        if self.cursor >= start {
            self.cursor = self.cursor + n;
        }
        if move_cursor_after {
            self.cursor = start + n;
        }
        if store_cursor {
            self.target_column = self.get_cursor_column();
        }
    }
    /// Removes bytes `start` up to `end`, rounded down to the characters they
    /// fall in. Any selection is cleared first. The removal is recorded, with
    /// the removed text, when asked and something was removed. A cursor inside
    /// the range moves to `start`, one after it moves back by the range's
    /// length; `move_cursor_after` puts it at `start`; it is then kept within
    /// the document. `store_cursor` makes its column the target column.
    pub fn remove_range(
        &mut self,
        start: usize,
        end: usize,
        record: bool,
        store_cursor: bool,
        move_cursor_after: bool,
    )
        requires
            old(self).wf(),
            start <= end <= old(self).len(),
        ensures
            final(self).wf(),
            final(self).chars() == remove_bytes(old(self).chars(), start as nat, end as nat),
            final(self).chars().len() <= old(self).chars().len(),
            final(self).selection_anchor is None,
            final(self).cursor == min(
                if move_cursor_after {
                    start as int
                } else if start <= old(self).cursor < end {
                    start as int
                } else if old(self).cursor > start {
                    old(self).cursor - (end - start)
                } else {
                    old(self).cursor as int
                },
                final(self).len() as int,
            ),
            ({
                let s = old(self).chars();
                let removed = s.subrange(
                    char_of_byte(s, start as nat) as int,
                    char_of_byte(s, end as nat) as int,
                );
                &&& (record && removed.len() > 0) ==> {
                    let h1 = old(self).history_view().take(old(self).current_history as int).push(
                        EditView::Delete(start, removed),
                    );
                    let n = evictions(
                        h1.len(),
                        old(self).history_size as nat,
                        (old(self).current_history + 1) as nat,
                        old(self).save_anchor,
                    );
                    &&& final(self).history_view() == h1.skip(n as int)
                    &&& final(self).current_history == old(self).current_history + 1 - n
                    &&& final(self).save_anchor == (match old(self).save_anchor {
                        Some(x) => Some((x - n) as usize),
                        None => None,
                    })
                }
                &&& !(record && removed.len() > 0) ==> {
                    &&& final(self).history_view() == old(self).history_view()
                    &&& final(self).current_history == old(self).current_history
                    &&& final(self).save_anchor == old(self).save_anchor
                }
            }),
            !store_cursor ==> final(self).target_column == old(self).target_column,
            store_cursor ==> final(self).target_column == final(self).spec_cursor_column(),
            final(self).scroll_lines == old(self).scroll_lines,
            final(self).scroll_columns == old(self).scroll_columns,
            final(self).history_size == old(self).history_size,
            final(self).tab_width == old(self).tab_width,
            final(self).layout_settings == old(self).layout_settings,
    {
        self.clear_selection();
        let ghost s0 = self.chars();
        let start_char = rope_byte_to_char(&self.text, start);
        let end_char = rope_byte_to_char(&self.text, end);
        proof {
            lemma_char_of_byte_mono(s0, start as nat, end as nat);
        }
        let string = rope_slice_string(&self.text, start_char, end_char);
        rope_remove(&mut self.text, start_char, end_char);
        proof {
            assert(self.chars() =~= remove_bytes(s0, start as nat, end as nat));
            lemma_remove_len(s0, start_char as int, end_char as int);
            assert(self.chars().len() <= s0.len());
            let f = self.layout_settings.spec_width_factor();
            assert(self.chars().len() * f <= s0.len() * f) by (nonlinear_arith)
                requires self.chars().len() <= s0.len();
        }
        let new_len = rope_len_bytes(&self.text);
        proof {
            assert(byte_len(string@) <= byte_len(s0));
            assert(self.history_view() == old(self).history_view());
        }
        if self.cursor >= start && self.cursor < end {
            self.cursor = start;
        } else if self.cursor > start {
            self.cursor = self.cursor - (end - start);
        }
        if move_cursor_after {
            self.cursor = start;
        }
        if self.cursor > new_len {
            self.cursor = new_len;
        }
        if record && !string.as_str().is_empty() {
            self.do_change(EditorAction::Delete(start, string));
        }
        if store_cursor {
            self.target_column = self.get_cursor_column();
        }
    }

    /// Whether the document differs from the last saved state.
    pub open spec fn spec_changed_since_save(&self) -> bool {
        self.save_anchor != Some(self.current_history)
    }

    /// Marks the current state as saved.
    pub fn set_saved(&mut self)
        ensures
            final(self).save_anchor == Some(old(self).current_history),
            final(self).text == old(self).text,
            final(self).cursor == old(self).cursor,
            final(self).selection_anchor == old(self).selection_anchor,
            final(self).target_column == old(self).target_column,
            final(self).scroll_lines == old(self).scroll_lines,
            final(self).scroll_columns == old(self).scroll_columns,
            final(self).layout_settings == old(self).layout_settings,
            final(self).history == old(self).history,
            final(self).current_history == old(self).current_history,
            final(self).history_size == old(self).history_size,
            final(self).tab_width == old(self).tab_width,
    {
        self.save_anchor = Some(self.current_history);
    }

    /// Whether the document differs from the last saved state.
    pub fn has_changed_since_save(&self) -> (r: bool)
        ensures
            r == self.spec_changed_since_save(),
    {
        match self.save_anchor {
            Some(x) => x != self.current_history,
            None => true,
        }
    }

    /// Undoes the action before the redo position, without recording, and
    /// puts the cursor where the action took place. Nothing happens at the
    /// start of the history, nor where the action no longer fits the document.
    pub fn undo(&mut self)
        requires
            old(self).wf(),
        ensures
            final(self).layout_settings == old(self).layout_settings,
            final(self).tab_width == old(self).tab_width,
            final(self).scroll_lines == old(self).scroll_lines,
            final(self).scroll_columns == old(self).scroll_columns,
            final(self).wf(),
            final(self).history_view() == old(self).history_view(),
            final(self).save_anchor == old(self).save_anchor,
            final(self).history_size == old(self).history_size,
            old(self).current_history == 0 ==> *final(self) == *old(self),
            old(self).current_history > 0 && old(self).undo_fits() ==> {
                let a = old(self).history_view()[old(self).current_history - 1];
                &&& final(self).current_history == old(self).current_history - 1
                &&& final(self).chars() == revert_action(a, old(self).chars())
                &&& final(self).cursor == (match a {
                    EditView::Insert(o, t) => min(o as int, final(self).len() as int),
                    EditView::Delete(o, t) => o + byte_len(t),
                })
                &&& final(self).selection_anchor is None
                &&& final(self).target_column == final(self).spec_cursor_column()
            },
            old(self).current_history > 0 && !old(self).undo_fits() ==> *final(self) == *old(self),
    {
        if self.current_history > 0 {
            let i = self.current_history - 1;
            let len = rope_len_bytes(&self.text);
            match &self.history[i] {
                EditorAction::Delete(cursor, string) => {
                    let cursor = *cursor;
                    let string = string.clone();
                    if cursor <= len && self.fits_layout(&string) {
                        self.current_history = i;
                        self.insert_string(cursor, string.as_str(), false, true, true);
                    }
                },
                EditorAction::Insert(cursor, string) => {
                    let cursor = *cursor;
                    let n = string.as_str().len();
                    if cursor <= len && n <= len - cursor {
                        self.current_history = i;
                        self.remove_range(cursor, cursor + n, false, true, true);
                    }
                },
            }
        }
    }

    /// Whether the action before the redo position can be undone on the
    /// document as it stands.
    pub open spec fn undo_fits(&self) -> bool {
        match self.history_view()[self.current_history - 1] {
            EditView::Delete(o, t) => o <= self.len() && (self.chars().len() + t.len())
                * self.layout_settings.spec_width_factor() <= usize::MAX,
            EditView::Insert(o, t) => o + byte_len(t) <= self.len(),
        }
    }

    /// Whether the action at the redo position can be redone on the document
    /// as it stands.
    pub open spec fn redo_fits(&self) -> bool {
        match self.history_view()[self.current_history as int] {
            EditView::Insert(o, t) => o <= self.len() && (self.chars().len() + t.len())
                * self.layout_settings.spec_width_factor() <= usize::MAX,
            EditView::Delete(o, t) => o + byte_len(t) <= self.len(),
        }
    }

    /// Whether `t` can join the document and its lines still be laid out.
    fn fits_layout(&self, t: &String) -> (r: bool)
        requires
            self.wf(),
        ensures
            r == ((self.chars().len() + t@.len()) * self.layout_settings.spec_width_factor()
                <= usize::MAX),
    {
        proof {
            let f = self.layout_settings.spec_width_factor();
            if f > 0 {
                assert(self.chars().len() <= usize::MAX) by (nonlinear_arith)
                    requires self.chars().len() * f <= usize::MAX, f > 0;
            }
        }
        let _ = t;
        self.layout_settings.width_fits(rope_len_chars(&self.text), t.as_str().unicode_len())
    }

    /// Redoes the action at the redo position, without recording, and puts
    /// the cursor where the action took place. Nothing happens at the end of
    /// the history, nor where the action no longer fits the document.
    pub fn redo(&mut self)
        requires
            old(self).wf(),
        ensures
            final(self).layout_settings == old(self).layout_settings,
            final(self).tab_width == old(self).tab_width,
            final(self).scroll_lines == old(self).scroll_lines,
            final(self).scroll_columns == old(self).scroll_columns,
            final(self).wf(),
            final(self).history_view() == old(self).history_view(),
            final(self).save_anchor == old(self).save_anchor,
            final(self).history_size == old(self).history_size,
            old(self).current_history >= old(self).history@.len() ==> *final(self) == *old(self),
            old(self).current_history < old(self).history@.len() && old(self).redo_fits() ==> {
                let a = old(self).history_view()[old(self).current_history as int];
                &&& final(self).current_history == old(self).current_history + 1
                &&& final(self).chars() == apply_action(a, old(self).chars())
                &&& final(self).cursor == (match a {
                    EditView::Insert(o, t) => o + byte_len(t),
                    EditView::Delete(o, t) => min(o as int, final(self).len() as int),
                })
                &&& final(self).selection_anchor is None
                &&& final(self).target_column == final(self).spec_cursor_column()
            },
            old(self).current_history < old(self).history@.len() && !old(self).redo_fits()
                ==> *final(self) == *old(self),
    {
        if self.history.len() > self.current_history {
            let i = self.current_history;
            let len = rope_len_bytes(&self.text);
            match &self.history[i] {
                EditorAction::Insert(cursor, string) => {
                    let cursor = *cursor;
                    let string = string.clone();
                    if cursor <= len && self.fits_layout(&string) {
                        self.current_history = i + 1;
                        self.insert_string(cursor, string.as_str(), false, true, true);
                    }
                },
                EditorAction::Delete(cursor, string) => {
                    let cursor = *cursor;
                    let n = string.as_str().len();
                    if cursor <= len && n <= len - cursor {
                        self.current_history = i + 1;
                        self.remove_range(cursor, cursor + n, false, true, true);
                    }
                },
            }
        }
    }


    /// Undoes or redoes until the redo position reaches the save anchor. It
    /// stops early only at an action that no longer fits the document, or at
    /// the end of the history.
    pub fn discard_changes(&mut self)
        requires
            old(self).wf(),
        ensures
            final(self).wf(),
            final(self).history_view() == old(self).history_view(),
            final(self).save_anchor == old(self).save_anchor,
            old(self).save_anchor is None ==> *final(self) == *old(self),
            old(self).save_anchor is Some && old(self).save_anchor->0 <= old(self).current_history ==> {
                let x = old(self).save_anchor->0;
                &&& x <= final(self).current_history <= old(self).current_history
                &&& final(self).chars() == revert_all(
                    old(self).history_view().subrange(
                        final(self).current_history as int,
                        old(self).current_history as int,
                    ),
                    old(self).chars(),
                )
                &&& final(self).current_history != x ==> !final(self).undo_fits()
            },
            old(self).save_anchor is Some && old(self).save_anchor->0 > old(self).current_history ==> {
                let x = old(self).save_anchor->0;
                &&& old(self).current_history <= final(self).current_history <= x
                &&& final(self).chars() == apply_all(
                    old(self).history_view().subrange(
                        old(self).current_history as int,
                        final(self).current_history as int,
                    ),
                    old(self).chars(),
                )
                &&& final(self).current_history != x ==> (final(self).current_history
                    >= final(self).history@.len() || !final(self).redo_fits())
            },
    {
        let ghost s0 = self.chars();
        let ghost c0 = self.current_history;
        let ghost h = self.history_view();
        match self.save_anchor {
            None => {},
            Some(x) => {
                if x <= self.current_history {
                    assert(h.subrange(c0 as int, c0 as int) =~= Seq::<EditView>::empty());
                    let mut progressing = true;
                    while self.current_history > x && progressing
                        invariant
                            !progressing ==> self.current_history > x && !self.undo_fits(),
                            self.wf(),
                            self.history_view() == h,
                            self.save_anchor == Some(x),
                            x <= self.current_history <= c0,
                            c0 <= h.len(),
                            self.chars() == revert_all(
                                h.subrange(self.current_history as int, c0 as int),
                                s0,
                            ),
                        decreases self.current_history + if progressing {
                            1nat
                        } else {
                            0nat
                        },
                    {
                        let c = self.current_history;
                        self.undo();
                        if self.current_history == c {
                            progressing = false;
                        } else {
                            proof {
                            lemma_revert_all_front(h.subrange(c - 1, c0 as int), s0);
                            assert(h.subrange(c - 1, c0 as int).drop_first() =~= h.subrange(
                                c as int,
                                c0 as int,
                            ));
                            }
                        }
                    }
                } else {
                    assert(h.subrange(c0 as int, c0 as int) =~= Seq::<EditView>::empty());
                    let mut progressing = true;
                    while self.current_history < x && self.current_history < self.history.len()
                        && progressing
                        invariant
                            !progressing ==> self.current_history < x && self.current_history
                                < self.history@.len() && !self.redo_fits(),
                            self.wf(),
                            self.history_view() == h,
                            self.save_anchor == Some(x),
                            c0 <= self.current_history <= x,
                            self.current_history <= h.len(),
                            self.chars() == apply_all(
                                h.subrange(c0 as int, self.current_history as int),
                                s0,
                            ),
                        decreases x - self.current_history + if progressing {
                            1int
                        } else {
                            0int
                        },
                    {
                        let c = self.current_history;
                        self.redo();
                        if self.current_history == c {
                            progressing = false;
                        } else {
                            proof {
                                assert(h.subrange(c0 as int, c + 1).drop_last() =~= h.subrange(
                                    c0 as int,
                                    c as int,
                                ));
                            }
                        }
                    }
                }
            },
        }
    }

    /// The selected byte range: from the nearer to the farther of anchor and
    /// cursor.
    pub fn get_selection_range(&self) -> (r: Option<(usize, usize)>)
        ensures
            r == self.spec_selection_range(),
            self.selection_anchor is None ==> r is None,
            self.selection_anchor matches Some(a) ==> r == Some(
                (min(a as int, self.cursor as int) as usize, vstd::math::max(a as int, self.cursor as int) as usize),
            ),
    {
        match self.selection_anchor {
            Some(x) => Some(if x > self.cursor { (self.cursor, x) } else { (x, self.cursor) }),
            None => None,
        }
    }

    /// Starts a selection at the cursor unless one is already active.
    pub fn add_selection(&mut self)
        ensures
            final(self).selection_anchor == (match old(self).selection_anchor {
                Some(a) => Some(a),
                None => Some(old(self).cursor),
            }),
            final(self).text == old(self).text,
            final(self).cursor == old(self).cursor,
            final(self).target_column == old(self).target_column,
            final(self).scroll_lines == old(self).scroll_lines,
            final(self).scroll_columns == old(self).scroll_columns,
            final(self).layout_settings == old(self).layout_settings,
            final(self).history == old(self).history,
            final(self).save_anchor == old(self).save_anchor,
            final(self).current_history == old(self).current_history,
            final(self).history_size == old(self).history_size,
            final(self).tab_width == old(self).tab_width,
    {
        if self.selection_anchor.is_none() {
            self.selection_anchor = Some(self.cursor);
        }
    }

    /// The characters that a byte range covers, rounded down to characters.
    pub open spec fn spec_text_between(&self, a: nat, b: nat) -> Seq<char> {
        self.chars().subrange(
            char_of_byte(self.chars(), a) as int,
            char_of_byte(self.chars(), b) as int,
        )
    }

    /// The selected text, if a selection is active.
    pub fn get_selection(&self) -> (r: Option<String>)
        requires
            self.wf(),
        ensures
            self.selection_anchor is None ==> r is None,
            self.spec_selection_range() matches Some((a, b)) ==> r matches Some(t) && t@
                == self.spec_text_between(a as nat, b as nat),
    {
        match self.get_selection_range() {
            Some((a, b)) => {
                let ka = rope_byte_to_char(&self.text, a);
                let kb = rope_byte_to_char(&self.text, b);
                proof {
                    lemma_char_of_byte_mono(self.chars(), a as nat, b as nat);
                }
                Some(rope_slice_string(&self.text, ka, kb))
            },
            None => None,
        }
    }

    /// Removes the selected text as one recorded deletion and returns it;
    /// `None` where nothing is selected.
    pub fn cut_selection(&mut self) -> (r: Option<String>)
        requires
            old(self).wf(),
        ensures
            final(self).wf(),
            final(self).selection_anchor is None,
            final(self).chars().len() <= old(self).chars().len(),
            old(self).selection_anchor is None ==> r is None && final(self).chars() == old(self).chars()
                && final(self).cursor == old(self).cursor && old(self).keeps_history(&*final(self))
                && final(self).target_column == old(self).target_column,
            old(self).spec_selection_range() matches Some((a, b)) ==> {
                let removed = old(self).spec_text_between(a as nat, b as nat);
                &&& r matches Some(t) && t@ == removed
                &&& final(self).chars() == remove_bytes(old(self).chars(), a as nat, b as nat)
                &&& final(self).cursor == min(a as int, final(self).len() as int)
                &&& removed.len() > 0 ==> old(self).records(&*final(self), EditView::Delete(a, removed))
                &&& removed.len() == 0 ==> old(self).keeps_history(&*final(self))
                &&& final(self).target_column == final(self).spec_cursor_column()
            },
            final(self).scroll_lines == old(self).scroll_lines,
            final(self).scroll_columns == old(self).scroll_columns,
            final(self).history_size == old(self).history_size,
            final(self).tab_width == old(self).tab_width,
            final(self).layout_settings == old(self).layout_settings,
    {
        match self.get_selection_range() {
            None => None,
            Some((a, b)) => {
                let string = self.get_selection();
                self.remove_range(a, b, true, true, true);
                self.clear_selection();
                string
            },
        }
    }


    /// The cursor moved one grapheme cluster forward or back.
    fn step_cursor(&self, forward: bool) -> (r: usize)
        requires
            self.wf(),
        ensures
            r == doc_step(self.chars(), self.cursor as nat, forward),
            r <= self.len(),
            forward ==> r >= self.cursor,
            !forward ==> r <= self.cursor,
    {
        let ghost s = self.chars();
        let len = rope_len_bytes(&self.text);
        if forward && self.cursor >= len {
            return self.cursor;
        }
        if !forward && self.cursor == 0 {
            return 0;
        }
        let (l, ls, line) = self.cursor_line();
        proof {
            lemma_cursor_in_line(s, self.cursor as nat);
        }
        let local = self.cursor - ls;
        if forward {
            let n = move_grapheme(1, local, line.as_str());
            proof {
                let g = graphemes_of(line@);
                assert(moved(g, local as nat, 1) == moved(g, next_boundary(g, local as nat), 0));
            }
            ls + n
        } else if local > 0 {
            let n = move_grapheme(-1, local, line.as_str());
            proof {
                let g = graphemes_of(line@);
                assert(moved(g, local as nat, -1) == moved(g, prev_boundary(g, local as nat), 0));
            }
            ls + n
        } else if l == 0 {
            0
        } else {
            let pl = l - 1;
            proof {
                self.lemma_line_facts(pl as nat);
                lemma_line_adjacent(s, pl as nat);
                lemma_line_start_bounds(s, pl as nat);
            }
            let pls = rope_line_to_byte(&self.text, pl);
            let p = rope_line(&self.text, pl);
            let pn = p.as_str().len();
            let n = move_grapheme(-1, pn, p.as_str());
            proof {
                let g = graphemes_of(p@);
                assert(moved(g, pn as nat, -1) == moved(g, prev_boundary(g, pn as nat), 0));
            }
            pls + n
        }
    }

    /// Moves the cursor across `amount` grapheme clusters, forward for a
    /// positive amount. With `add_selection` a selection starts at the cursor
    /// unless one is active; otherwise the cursor first jumps to the selection's
    /// end in the direction of motion and the selection is dropped. With
    /// `save_column` the new column becomes the target column.
    pub fn move_cursor_horizontal(&mut self, amount: isize, add_selection: bool, save_column: bool)
        requires
            old(self).wf(),
        ensures
            final(self).wf(),
            final(self).chars() == old(self).chars(),
            final(self).cursor == doc_moved(
                old(self).chars(),
                old(self).motion_start(amount > 0, add_selection) as nat,
                amount as int,
            ),
            final(self).selection_anchor == old(self).anchor_after(add_selection),
            save_column ==> final(self).target_column == final(self).spec_cursor_column(),
            !save_column ==> final(self).target_column == old(self).target_column,
            final(self).unchanged_but_motion(*old(self)),
            amount >= 0 ==> final(self).cursor >= old(self).motion_start(amount > 0, add_selection),
            amount <= 0 ==> final(self).cursor <= old(self).motion_start(amount > 0, add_selection),
    {
        self.prepare_motion(amount > 0, add_selection);
        let mut k = amount;
        let ghost s = self.chars();
        let ghost b0 = self.cursor;
        while k != 0
            invariant
                self.wf(),
                self.chars() == s,
                self.selection_anchor == old(self).anchor_after(add_selection),
                self.target_column == old(self).target_column,
                self.unchanged_but_motion(*old(self)),
                doc_moved(s, self.cursor as nat, k as int) == doc_moved(s, b0 as nat, amount as int),
                b0 == old(self).motion_start(amount > 0, add_selection),
                amount >= 0 ==> k >= 0 && self.cursor >= b0,
                amount <= 0 ==> k <= 0 && self.cursor <= b0,
            decreases (if k < 0 { -k } else { k as int }),
        {
            if k > 0 {
                self.cursor = self.step_cursor(true);
                k = k - 1;
            } else {
                self.cursor = self.step_cursor(false);
                k = k + 1;
            }
        }
        if save_column {
            self.target_column = self.get_cursor_column();
        }
    }

    /// Where a motion starts: the cursor, or without `add_selection` the end
    /// of the selection in the direction of motion.
    pub open spec fn motion_start(&self, forward: bool, add_selection: bool) -> usize {
        match self.selection_anchor {
            Some(a) if !add_selection => if forward {
                if a > self.cursor { a } else { self.cursor }
            } else {
                if a < self.cursor { a } else { self.cursor }
            },
            _ => self.cursor,
        }
    }

    /// The anchor after a motion: kept or set at the cursor with
    /// `add_selection`, dropped without.
    pub open spec fn anchor_after(&self, add_selection: bool) -> Option<usize> {
        if add_selection {
            match self.selection_anchor {
                Some(a) => Some(a),
                None => Some(self.cursor),
            }
        } else {
            None
        }
    }

    /// Everything but the cursor, the anchor and the target column is as in `o`.
    pub open spec fn unchanged_but_motion(&self, o: Self) -> bool {
        &&& self.text == o.text
        &&& self.scroll_lines == o.scroll_lines
        &&& self.scroll_columns == o.scroll_columns
        &&& self.layout_settings == o.layout_settings
        &&& self.history == o.history
        &&& self.save_anchor == o.save_anchor
        &&& self.current_history == o.current_history
        &&& self.history_size == o.history_size
        &&& self.tab_width == o.tab_width
    }

    /// Sets up the anchor for a motion and moves the cursor to where it starts.
    fn prepare_motion(&mut self, forward: bool, add_selection: bool)
        requires
            old(self).wf(),
        ensures
            final(self).wf(),
            final(self).cursor == old(self).motion_start(forward, add_selection),
            final(self).selection_anchor == old(self).anchor_after(add_selection),
            final(self).target_column == old(self).target_column,
            final(self).unchanged_but_motion(*old(self)),
    {
        if add_selection {
            self.add_selection();
        } else {
            if let Some(a) = self.selection_anchor {
                if forward {
                    if a > self.cursor {
                        self.cursor = a;
                    }
                } else {
                    if a < self.cursor {
                        self.cursor = a;
                    }
                }
            }
            self.clear_selection();
        }
    }


    /// The character at the cursor.
    pub fn get_character_under_cursor(&self) -> (r: char)
        requires
            self.wf(),
            self.cursor < self.len(),
        ensures
            r == self.chars()[char_of_byte(self.chars(), self.cursor as nat) as int],
    {
        proof {
            lemma_byte_within_char(self.chars(), self.cursor as nat);
        }
        let k = rope_byte_to_char(&self.text, self.cursor);
        match rope_get_char(&self.text, k) {
            Some(c) => c,
            None => ' ',
        }
    }

    /// The character before the cursor, if any.
    pub fn get_character_in_front_of_cursor(&self) -> (r: Option<char>)
        requires
            self.wf(),
        ensures
            ({
                let k = char_of_byte(self.chars(), self.cursor as nat);
                &&& k == 0 ==> r is None
                &&& k > 0 ==> r == Some(self.chars()[k - 1])
            }),
    {
        let k = rope_byte_to_char(&self.text, self.cursor);
        proof {
            lemma_char_of_byte_mono(self.chars(), self.cursor as nat, self.cursor as nat);
        }
        if k == 0 {
            None
        } else {
            rope_get_char(&self.text, k - 1)
        }
    }

    /// The character before the cursor; a space at the start.
    fn char_before_or_space(&self) -> (r: char)
        requires
            self.wf(),
        ensures
            ({
                let k = char_of_byte(self.chars(), self.cursor as nat);
                &&& k > 0 ==> r == self.chars()[k - 1]
                &&& k == 0 ==> r == ' '
            }),
    {
        match self.get_character_in_front_of_cursor() {
            Some(c) => c,
            None => ' ',
        }
    }

    /// Whether a word motion goes on: the character it would cross next is
    /// whitespace (for the first run) or not (for the second).
    fn word_run_continues(&self, forward: bool, whitespace_run: bool) -> (r: bool)
        requires
            self.wf(),
        ensures
            ({
                let s = self.chars();
                let k = char_of_byte(s, self.cursor as nat);
                &&& forward ==> r == (self.cursor < self.len() && is_white_space(s[k as int])
                    == whitespace_run)
                &&& !forward ==> r == (self.cursor > 0 && is_white_space(
                    if k > 0 { s[k - 1] } else { ' ' },
                ) == whitespace_run)
            }),
    {
        if forward {
            let len = rope_len_bytes(&self.text);
            self.cursor < len && is_whitespace(self.get_character_under_cursor()) == whitespace_run
        } else {
            self.cursor > 0 && is_whitespace(self.char_before_or_space()) == whitespace_run
        }
    }

    /// One word-motion step with the given flags; reports whether the cursor moved.
    fn word_step(&mut self, forward: bool, add_selection: bool, save_column: bool) -> (moved: bool)
        requires
            old(self).wf(),
        ensures
            final(self).wf(),
            final(self).chars() == old(self).chars(),
            final(self).unchanged_but_motion(*old(self)),
            forward ==> final(self).cursor >= old(self).cursor,
            !forward ==> final(self).cursor <= old(self).cursor,
            moved == (final(self).cursor != old(self).cursor),
            !moved ==> doc_step(final(self).chars(), final(self).cursor as nat, forward) == final(self).cursor,
            final(self).cursor == doc_step(
                old(self).chars(),
                old(self).motion_start(forward, add_selection) as nat,
                forward,
            ),
            final(self).motion_start(forward, add_selection) == final(self).cursor,
            final(self).selection_anchor == old(self).anchor_after(add_selection),
            !save_column ==> final(self).target_column == old(self).target_column,
            add_selection ==> final(self).selection_anchor is Some,
            !add_selection ==> final(self).selection_anchor is None,
    {
        let before = self.cursor;
        let ghost ms = self.motion_start(forward, add_selection);
        self.move_cursor_horizontal(if forward { 1 } else { -1 }, add_selection, save_column);
        proof {
            let s = self.chars();
            if forward {
                assert(doc_moved(s, ms as nat, 1) == doc_moved(s, doc_step(s, ms as nat, true), 0));
            } else {
                assert(doc_moved(s, ms as nat, -1) == doc_moved(s, doc_step(s, ms as nat, false), 0));
            }
        }
        self.cursor != before
    }

    /// Moves the cursor by words: forward over a run of whitespace and then a
    /// run of anything else, or back over the mirror image. Each step is a
    /// horizontal motion by one cluster with the same flags. It stops at the
    /// end or start of the document, at the character that ends the second
    /// run, or where a step no longer moves.
    pub fn move_cursor_horizontal_words(&mut self, amount: isize, add_selection: bool, save_column: bool)
        requires
            old(self).wf(),
        ensures
            final(self).wf(),
            final(self).chars() == old(self).chars(),
            final(self).unchanged_but_motion(*old(self)),
            amount > 0 ==> final(self).cursor >= old(self).cursor,
            amount <= 0 ==> final(self).cursor <= old(self).cursor,
            (add_selection || old(self).selection_anchor is None) ==> final(self).cursor == word_target(
                old(self).chars(),
                old(self).cursor as nat,
                amount > 0,
            ),
            final(self).selection_anchor == old(self).anchor_after(add_selection),
            save_column ==> final(self).target_column == final(self).spec_cursor_column(),
            !save_column ==> final(self).target_column == old(self).target_column,
    {
        let ghost s = self.chars();
        let forward = amount > 0;
        let ghost exact = add_selection || old(self).selection_anchor is None;
        if add_selection {
            self.add_selection();
        }
        let ghost first = run_to(s, old(self).cursor as nat, true, forward);
        let mut moving = true;
        while moving && self.word_run_continues(forward, true)
            invariant
                self.wf(),
                self.chars() == s,
                self.unchanged_but_motion(*old(self)),
                forward == (amount > 0),
                forward ==> self.cursor >= old(self).cursor,
                !forward ==> self.cursor <= old(self).cursor,
                exact ==> self.motion_start(forward, add_selection) == self.cursor,
                exact ==> run_to(s, self.cursor as nat, true, forward) == first,
                add_selection ==> self.selection_anchor == old(self).anchor_after(true),
                !save_column ==> self.target_column == old(self).target_column,
                !moving ==> doc_step(s, self.cursor as nat, forward) == self.cursor,
            decreases (if forward { self.len() - self.cursor } else { self.cursor as int }) + if moving {
                1int
            } else {
                0int
            },
        {
            moving = self.word_step(forward, add_selection, save_column);
        }
        let ghost second = run_to(s, self.cursor as nat, false, forward);
        let mut moving = true;
        while moving && self.word_run_continues(forward, false)
            invariant
                self.wf(),
                self.chars() == s,
                self.unchanged_but_motion(*old(self)),
                forward == (amount > 0),
                forward ==> self.cursor >= old(self).cursor,
                !forward ==> self.cursor <= old(self).cursor,
                exact ==> self.motion_start(forward, add_selection) == self.cursor,
                exact ==> run_to(s, self.cursor as nat, false, forward) == second,
                add_selection ==> self.selection_anchor == old(self).anchor_after(true),
                !save_column ==> self.target_column == old(self).target_column,
                exact ==> second == word_target(s, old(self).cursor as nat, forward),
                !moving ==> doc_step(s, self.cursor as nat, forward) == self.cursor,
            decreases (if forward { self.len() - self.cursor } else { self.cursor as int }) + if moving {
                1int
            } else {
                0int
            },
        {
            moving = self.word_step(forward, add_selection, save_column);
        }
        if !add_selection {
            self.clear_selection();
        }
        if save_column {
            self.target_column = self.get_cursor_column();
        }
    }

    /// Sets the anchor as a line motion does: kept or set with
    /// `add_selection`, dropped without.
    fn select_or_clear(&mut self, add_selection: bool)
        requires
            old(self).wf(),
        ensures
            final(self).wf(),
            final(self).cursor == old(self).cursor,
            final(self).selection_anchor == old(self).anchor_after(add_selection),
            final(self).target_column == old(self).target_column,
            final(self).unchanged_but_motion(*old(self)),
    {
        if add_selection {
            self.add_selection();
        } else {
            self.clear_selection();
        }
    }

    /// Moves the cursor to the start of its line; with `save_column` the
    /// target column becomes zero.
    pub fn move_cursor_to_start_of_line(&mut self, add_selection: bool, save_column: bool)
        requires
            old(self).wf(),
        ensures
            final(self).wf(),
            final(self).chars() == old(self).chars(),
            final(self).cursor == line_byte(old(self).chars(), old(self).spec_cursor_line()),
            final(self).spec_cursor_line() == old(self).spec_cursor_line(),
            final(self).selection_anchor == old(self).anchor_after(add_selection),
            final(self).target_column == (if save_column { 0 } else { old(self).target_column }),
            final(self).unchanged_but_motion(*old(self)),
    {
        self.select_or_clear(add_selection);
        let (l, start, _) = self.cursor_line();
        proof {
            let s = self.chars();
            lemma_line_start_bounds(s, l as nat);
            lemma_char_of_prefix(s, line_start(s, l as nat));
            lemma_line_of_line_start(s, l as nat);
        }
        self.cursor = start;
        if save_column {
            self.target_column = 0;
        }
    }

    /// Moves the cursor to the end of its line: before the line break, or to
    /// the end of the document on the last line.
    pub fn move_cursor_to_end_of_line(&mut self, add_selection: bool, save_column: bool)
        requires
            old(self).wf(),
        ensures
            final(self).wf(),
            final(self).chars() == old(self).chars(),
            final(self).cursor == end_of_line(old(self).chars(), old(self).cursor as nat),
            final(self).selection_anchor == old(self).anchor_after(add_selection),
            (save_column && old(self).cursor != old(self).len() && old(self).spec_cursor_line() + 1
                < line_count(old(self).chars())) ==> final(self).target_column == final(self).spec_cursor_column(),
            !(save_column && old(self).cursor != old(self).len() && old(self).spec_cursor_line() + 1
                < line_count(old(self).chars())) ==> final(self).target_column == old(self).target_column,
            final(self).unchanged_but_motion(*old(self)),
    {
        self.select_or_clear(add_selection);
        let len = rope_len_bytes(&self.text);
        if self.cursor != len {
            let (l, _, _) = self.cursor_line();
            let count = rope_len_lines(&self.text);
            let next = if l + 1 < count { l + 1 } else { count };
            self.cursor = rope_line_to_byte(&self.text, next);
            proof {
                let s = self.chars();
                lemma_line_start_bounds(s, next as nat);
                lemma_char_of_prefix(s, line_start(s, next as nat));
            }
            if l + 1 < count {
                let ghost ms = self.motion_start(false, add_selection);
                self.move_cursor_horizontal(-1, add_selection, save_column);
                proof {
                    let s = self.chars();
                    assert(doc_moved(s, ms as nat, -1) == doc_moved(s, doc_step(s, ms as nat, false), 0));
                }
            }
        }
    }


    /// Where column `column` of line `l` lies: at the last cluster that starts
    /// at or before the column. A column at or past the end of a line without
    /// a line break (the last line) lands at the line's end; a line ending in a
    /// break ends with the break's cluster, so the column lands before it.
    pub open spec fn spec_column_position(&self, l: nat, column: usize) -> nat {
        let s = self.chars();
        let t = line_text(s, l);
        let lay = self.layout_settings.spec_layout(t);
        let n = count_upto(lay, column as int, 0);
        if n == 0 {
            line_byte(s, l)
        } else if n == lay.len() && !ends_with_break(t) && column >= lay[n - 1].end_column {
            line_byte(s, l) + byte_len(t)
        } else {
            (line_byte(s, l) + lay[n - 1].cursor) as nat
        }
    }

    /// Where visual column `column` of line `l` lies.
    fn column_position(&self, l: usize, column: usize) -> (r: usize)
        requires
            self.wf(),
            l < line_count(self.chars()),
        ensures
            r == self.spec_column_position(l as nat, column),
            r <= self.len(),
    {
        proof {
            self.lemma_line_facts(l as nat);
            lemma_line_start_bounds(self.chars(), l as nat);
            lemma_char_of_prefix(self.chars(), line_start(self.chars(), l as nat));
        }
        let start = rope_line_to_byte(&self.text, l);
        let line = rope_line(&self.text, l);
        let text = line.as_str();
        let layout = self.layout_settings.layout_line(text);
        let mut i: usize = 0;
        while i < layout.len() && layout[i].start_column <= column
            invariant
                i <= layout@.len(),
                count_upto(layout@, column as int, 0) == i + count_upto(layout@, column as int, i as int),
            decreases layout@.len() - i,
        {
            i = i + 1;
        }
        if i == 0 {
            return start;
        }
        let chars = text.unicode_len();
        let breaks = chars > 0 && crate::unicode::is_newline(text.get_char(chars - 1));
        if i == layout.len() && !breaks && column >= layout[i - 1].end_column {
            start + text.len()
        } else {
            start + layout[i - 1].cursor
        }
    }

    /// Moves the cursor to visual column `column` of its line; past the last
    /// cluster it goes to the end of the line.
    pub fn move_cursor_to_column(&mut self, column: usize, add_selection: bool, save_column: bool)
        requires
            old(self).wf(),
        ensures
            final(self).wf(),
            final(self).chars() == old(self).chars(),
            final(self).cursor == old(self).spec_column_position(old(self).spec_cursor_line(), column),
            final(self).selection_anchor == old(self).anchor_after(add_selection),
            save_column ==> final(self).target_column == final(self).spec_cursor_column(),
            !save_column ==> final(self).target_column == old(self).target_column,
            final(self).unchanged_but_motion(*old(self)),
    {
        self.select_or_clear(add_selection);
        self.move_cursor_to_start_of_line(add_selection, false);
        let (l, _, _) = self.cursor_line();
        self.cursor = self.column_position(l, column);
        if save_column {
            self.target_column = self.get_cursor_column();
        }
    }

    /// Moves the cursor `amount` lines down (up for a negative amount),
    /// clamped to the document, onto the target column.
    pub fn move_cursor_vertical(&mut self, amount: isize, add_selection: bool, save_column: bool)
        requires
            old(self).wf(),
        ensures
            final(self).wf(),
            final(self).chars() == old(self).chars(),
            final(self).cursor == old(self).spec_column_position(
                clamp_line(
                    cursor_line_of(
                        old(self).chars(),
                        old(self).motion_start(amount > 0, add_selection) as nat,
                    ) + amount,
                    line_count(old(self).chars()),
                ),
                old(self).target_column,
            ),
            final(self).selection_anchor == old(self).anchor_after(add_selection),
            save_column ==> final(self).target_column == final(self).spec_cursor_column(),
            !save_column ==> final(self).target_column == old(self).target_column,
            final(self).unchanged_but_motion(*old(self)),
    {
        self.prepare_motion(amount > 0, add_selection);
        let (l, _, _) = self.cursor_line();
        let count = rope_len_lines(&self.text);
        let wanted: i128 = l as i128 + amount as i128;
        let target: usize = if wanted < 0 {
            0
        } else if wanted > (count - 1) as i128 {
            count - 1
        } else {
            wanted as usize
        };
        proof {
            let s = self.chars();
            lemma_line_start_bounds(s, target as nat);
            lemma_char_of_prefix(s, line_start(s, target as nat));
            lemma_line_of_line_start(s, target as nat);
        }
        self.cursor = rope_line_to_byte(&self.text, target);
        let column = self.target_column;
        self.move_cursor_to_column(column, add_selection, save_column);
    }

    /// Puts the cursor at visual column `x` of line `y`; past the last line it
    /// goes to the end of the document, past the last cluster of a line to
    /// the end of the line.
    pub fn set_cursor_pos(&mut self, x: usize, y: usize, add_selection: bool)
        requires
            old(self).wf(),
        ensures
            final(self).wf(),
            final(self).chars() == old(self).chars(),
            final(self).cursor == old(self).spec_pointed(x, y),
            final(self).selection_anchor == old(self).anchor_after(add_selection),
            final(self).unchanged_but_motion(*old(self)),
            final(self).target_column == old(self).target_column,
    {
        self.select_or_clear(add_selection);
        let count = rope_len_lines(&self.text);
        if y < count {
            self.cursor = self.column_position(y, x);
        } else {
            self.cursor = rope_len_bytes(&self.text);
        }
    }

    /// Where `set_cursor_pos(x, y, ..)` puts the cursor: at visual column `x`
    /// of line `y`, past the last line at the end of the document, past the
    /// last cluster of the line at the end of that line.
    pub open spec fn spec_pointed(&self, x: usize, y: usize) -> nat {
        let s = self.chars();
        if y >= line_count(s) {
            self.len()
        } else {
            self.spec_column_position(y as nat, x)
        }
    }

    /// `set_cursor_pos` at a position relative to the scrolled viewport.
    pub fn set_relative_cursor_pos(&mut self, x: usize, y: usize, add_selection: bool)
        requires
            old(self).wf(),
        ensures
            final(self).wf(),
            final(self).chars() == old(self).chars(),
            final(self).unchanged_but_motion(*old(self)),
            final(self).selection_anchor == old(self).anchor_after(add_selection),
            final(self).target_column == old(self).target_column,
            final(self).cursor == old(self).spec_pointed(
                if x + old(self).scroll_columns > usize::MAX { usize::MAX } else { (x + old(self).scroll_columns) as usize },
                if y + old(self).scroll_lines > usize::MAX { usize::MAX } else { (y + old(self).scroll_lines) as usize },
            ),
    {
        let sx = x.saturating_add(self.scroll_columns);
        let sy = y.saturating_add(self.scroll_lines);
        self.set_cursor_pos(sx, sy, add_selection);
    }

    /// The cursor's visual column and line.
    pub fn get_cursor_pos(&self) -> (r: (usize, usize))
        requires
            self.wf(),
        ensures
            r.0 == self.spec_cursor_column(),
            r.1 == self.spec_cursor_line(),
    {
        let (l, _, _) = self.cursor_line();
        (self.get_cursor_column(), l)
    }

    /// The cursor's position within the viewport, if it is not scrolled past.
    pub fn get_relative_cursor_pos(&self) -> (r: Option<(usize, usize)>)
        requires
            self.wf(),
        ensures
            ({
                let x = self.spec_cursor_column();
                let y = self.spec_cursor_line();
                &&& (x >= self.scroll_columns && y >= self.scroll_lines) ==> r == Some(
                    ((x - self.scroll_columns) as usize, (y - self.scroll_lines) as usize),
                )
                &&& !(x >= self.scroll_columns && y >= self.scroll_lines) ==> r is None
            }),
    {
        let (x, y) = self.get_cursor_pos();
        if x >= self.scroll_columns && y >= self.scroll_lines {
            Some((x - self.scroll_columns, y - self.scroll_lines))
        } else {
            None
        }
    }

    /// Scrolls by `amount` lines and moves the cursor by as many.
    pub fn scroll_vertically(&mut self, amount: isize)
        requires
            old(self).wf(),
        ensures
            final(self).wf(),
            final(self).chars() == old(self).chars(),
            final(self).scroll_lines == add_clamped(old(self).scroll_lines, amount),
            final(self).cursor == old(self).spec_column_position(
                clamp_line(
                    cursor_line_of(old(self).chars(), old(self).motion_start(amount > 0, false) as nat)
                        + amount,
                    line_count(old(self).chars()),
                ),
                old(self).target_column,
            ),
            final(self).selection_anchor is None,
            final(self).target_column == old(self).target_column,
            final(self).layout_settings == old(self).layout_settings,
            final(self).tab_width == old(self).tab_width,
            final(self).scroll_columns == old(self).scroll_columns,
            final(self).text == old(self).text,
            final(self).history == old(self).history,
            final(self).save_anchor == old(self).save_anchor,
            final(self).current_history == old(self).current_history,
            final(self).history_size == old(self).history_size,
    {
        let v: i128 = self.scroll_lines as i128 + amount as i128;
        self.scroll_lines = if v < 0 {
            0
        } else if v > usize::MAX as i128 {
            usize::MAX
        } else {
            v as usize
        };
        let ghost mid = *self;
        self.move_cursor_vertical(amount, false, false);
        proof {
            assert(mid.spec_column_position(
                clamp_line(
                    cursor_line_of(mid.chars(), mid.motion_start(amount > 0, false) as nat) + amount,
                    line_count(mid.chars()),
                ),
                mid.target_column,
            ) == old(self).spec_column_position(
                clamp_line(
                    cursor_line_of(old(self).chars(), old(self).motion_start(amount > 0, false) as nat)
                        + amount,
                    line_count(old(self).chars()),
                ),
                old(self).target_column,
            ));
        }
    }

    /// Adjusts both scroll offsets by the least that keeps the cursor inside
    /// a `width` by `height` viewport with the given margins, each margin at
    /// most half the extent.
    pub fn set_scroll(&mut self, width: usize, height: usize, width_margin: usize, height_margin: usize)
        requires
            old(self).wf(),
        ensures
            final(self).wf(),
            final(self).chars() == old(self).chars(),
            final(self).cursor == old(self).cursor,
            final(self).selection_anchor == old(self).selection_anchor,
            final(self).target_column == old(self).target_column,
            final(self).layout_settings == old(self).layout_settings,
            final(self).tab_width == old(self).tab_width,
            final(self).text == old(self).text,
            final(self).history == old(self).history,
            final(self).save_anchor == old(self).save_anchor,
            final(self).current_history == old(self).current_history,
            final(self).history_size == old(self).history_size,
            final(self).scroll_lines == fit_scroll(
                old(self).scroll_lines,
                old(self).spec_cursor_line() as usize,
                height,
                height_margin,
            ),
            final(self).scroll_columns == fit_scroll(
                old(self).scroll_columns,
                old(self).spec_cursor_column(),
                width,
                width_margin,
            ),
    {
        let (x, y) = self.get_cursor_pos();
        self.scroll_lines = fit_scroll_exec(self.scroll_lines, y, height, height_margin);
        self.scroll_columns = fit_scroll_exec(self.scroll_columns, x, width, width_margin);
    }

    /// The cursor's line and its column counted in character widths, with
    /// tabs and control characters taking none.
    pub fn get_row_and_column(&self) -> (r: (usize, usize))
        requires
            self.wf(),
        ensures
            r.0 == self.spec_cursor_line(),
            r.1 == self.spec_column_width(),
    {
        let ghost s = self.chars();
        let (l, start, line) = self.cursor_line();
        let k = rope_byte_to_char(&self.text, self.cursor);
        let ks = rope_byte_to_char(&self.text, start);
        proof {
            lemma_line_start_bounds(s, l as nat);
            lemma_char_of_prefix(s, line_start(s, l as nat));
            lemma_char_of_byte_mono(s, self.cursor as nat, self.cursor as nat);
            lemma_line_start_le(s, k as int);
            lemma_char_before_next_line(s, k as int);
            assert(k - ks <= line@.len());
            assert(line@.len() * 3 <= usize::MAX) by (nonlinear_arith)
                requires
                    line@.len() * self.layout_settings.spec_width_factor() <= usize::MAX,
                    self.layout_settings.spec_width_factor() >= 3;
        }
        let n = k - ks;
        let mut column: usize = 0;
        let mut i: usize = 0;
        let text = line.as_str();
        while i < n
            invariant
                n <= line@.len(),
                line@.len() * 3 <= usize::MAX,
                text@ == line@,
                i <= n,
                column == crate::unicode::seq_width(line@.take(i as int), 0),
                column <= 3 * i,
            decreases n - i,
        {
            let w = crate::unicode::char_display_width(text.get_char(i), 0);
            proof {
                assert(line@.take(i + 1).drop_last() =~= line@.take(i as int));
            }
            column = column + w;
            i = i + 1;
        }
        (l, column)
    }

    /// The width of the characters of the cursor's line before the cursor,
    /// tabs and control characters taking none.
    pub open spec fn spec_column_width(&self) -> nat {
        let l = self.spec_cursor_line();
        crate::unicode::seq_width(
            line_text(self.chars(), l).take(
                char_of_byte(self.chars(), self.cursor as nat) - line_start(self.chars(), l),
            ),
            0,
        )
    }

    /// The line that holds the cursor.
    pub fn get_current_line(&self) -> (r: usize)
        requires
            self.wf(),
        ensures
            r == self.spec_cursor_line(),
    {
        rope_byte_to_line(&self.text, self.cursor)
    }

    /// Number of lines of the document.
    pub fn len_lines(&self) -> (r: usize)
        ensures
            r == line_count(self.chars()),
    {
        rope_len_lines(&self.text)
    }

    /// The whole document as a string.
    pub fn to_string(&self) -> (r: String)
        ensures
            r@ == self.chars(),
    {
        rope_to_string(&self.text)
    }

    /// The document.
    pub fn get_text(&self) -> (r: &Rope)
        ensures
            rope_chars(*r) == self.chars(),
    {
        &self.text
    }

    pub fn get_lines_scrolled(&self) -> (r: usize)
        ensures
            r == self.scroll_lines,
    {
        self.scroll_lines
    }

    pub fn get_columns_scrolled(&self) -> (r: usize)
        ensures
            r == self.scroll_columns,
    {
        self.scroll_columns
    }

    pub fn get_tab_width(&self) -> (r: usize)
        ensures
            r == self.tab_width,
    {
        self.tab_width
    }

    /// The first line shown in the viewport.
    pub fn get_first_visible_line(&self) -> (r: usize)
        ensures
            r == self.scroll_lines,
    {
        self.scroll_lines
    }


    /// Whether `n` more characters fit the document with its lines still
    /// able to be laid out.
    pub open spec fn has_room(&self, n: nat) -> bool {
        (self.chars().len() + n) * self.layout_settings.spec_width_factor() <= usize::MAX
    }

    /// The document once the selection, if any, is cut.
    pub open spec fn chars_after_cut(&self) -> Seq<char> {
        match self.spec_selection_range() {
            Some((a, b)) => remove_bytes(self.chars(), a as nat, b as nat),
            None => self.chars(),
        }
    }

    /// The cursor once the selection, if any, is cut.
    pub open spec fn cursor_after_cut(&self) -> nat {
        match self.spec_selection_range() {
            Some((a, b)) => min(a as int, byte_len(self.chars_after_cut()) as int) as nat,
            None => self.cursor as nat,
        }
    }

    /// Replaces the selection, if any, by `character`, or inserts it at the
    /// cursor; the cursor ends after it.
    pub fn insert_character_at_cursor(&mut self, character: char)
        requires
            old(self).wf(),
            old(self).has_room(1),
        ensures
            final(self).wf(),
            final(self).chars() == insert_at(
                old(self).chars_after_cut(),
                old(self).cursor_after_cut(),
                seq![character],
            ),
            final(self).cursor == old(self).cursor_after_cut() + byte_len(seq![character]),
            final(self).selection_anchor is None,
            old(self).selection_anchor is None ==> old(self).records(
                &*final(self),
                EditView::Insert(old(self).cursor, seq![character]),
            ),
            final(self).target_column == final(self).spec_cursor_column(),
    {
        let string = char_to_string(character);
        self.insert_string_at_cursor(string.as_str());
    }

    /// Replaces the selection, if any, by `string`, or inserts it at the
    /// cursor; the cursor ends after it.
    pub fn insert_string_at_cursor(&mut self, string: &str)
        requires
            old(self).wf(),
            old(self).has_room(string@.len()),
        ensures
            final(self).wf(),
            final(self).chars() == insert_at(
                old(self).chars_after_cut(),
                old(self).cursor_after_cut(),
                string@,
            ),
            final(self).cursor == old(self).cursor_after_cut() + byte_len(string@),
            final(self).selection_anchor is None,
            old(self).selection_anchor is None && string@.len() > 0 ==> old(self).records(
                &*final(self),
                EditView::Insert(old(self).cursor, string@),
            ),
            old(self).selection_anchor is None && string@.len() == 0 ==> old(self).keeps_history(&*final(self)),
            final(self).target_column == final(self).spec_cursor_column(),
    {
        let ghost before = *self;
        self.cut_selection();
        proof {
            lemma_remove_room(before, *self, string@.len());
        }
        let at = self.cursor;
        self.insert_string(at, string, true, true, true);
    }

    /// Inserts a tab at the cursor, in place of the selection if any.
    pub fn insert_tab_at_cursor(&mut self)
        requires
            old(self).wf(),
            old(self).has_room(1),
        ensures
            final(self).wf(),
            final(self).chars() == insert_at(
                old(self).chars_after_cut(),
                old(self).cursor_after_cut(),
                seq!['\t'],
            ),
            final(self).cursor == old(self).cursor_after_cut() + byte_len(seq!['\t']),
            final(self).selection_anchor is None,
            old(self).selection_anchor is None ==> old(self).records(
                &*final(self),
                EditView::Insert(old(self).cursor, seq!['\t']),
            ),
            final(self).target_column == final(self).spec_cursor_column(),
    {
        self.insert_character_at_cursor('\t');
    }

    /// Inserts a line break at the cursor, in place of the selection if any,
    /// followed by the blanks that start the cursor's line, as far as they
    /// come before the cursor.
    pub fn insert_newline_at_cursor(&mut self)
        requires
            old(self).wf(),
            old(self).has_room(
                line_text(
                    old(self).chars_after_cut(),
                    cursor_line_of(old(self).chars_after_cut(), old(self).cursor_after_cut()),
                ).len() + 1,
            ),
        ensures
            final(self).wf(),
            final(self).selection_anchor is None,
            ({
                let s = old(self).chars_after_cut();
                let c = old(self).cursor_after_cut();
                let l = cursor_line_of(s, c);
                let line = line_text(s, l);
                let limit = char_of_byte(s, c) - line_start(s, l);
                let t = seq!['\n'] + line.take(leading_blanks(line, limit, 0) as int);
                &&& final(self).chars() == insert_at(s, c, t)
                &&& final(self).cursor == c + byte_len(t)
                &&& old(self).selection_anchor is None ==> old(self).records(
                    &*final(self),
                    EditView::Insert(old(self).cursor, t),
                )
                &&& final(self).target_column == final(self).spec_cursor_column()
            }),
    {
        let ghost before = *self;
        self.cut_selection();
        let ghost s = self.chars();
        proof {
            lemma_remove_room(before, *self, line_text(s, cursor_line_of(s, self.cursor as nat)).len() + 1);
        }
        let (l, start, line) = self.cursor_line();
        let k = rope_byte_to_char(&self.text, self.cursor);
        let ks = rope_byte_to_char(&self.text, start);
        proof {
            lemma_line_start_bounds(s, l as nat);
            lemma_char_of_prefix(s, line_start(s, l as nat));
            lemma_char_of_byte_mono(s, self.cursor as nat, self.cursor as nat);
            lemma_line_start_le(s, k as int);
        }
        let limit = k - ks;
        let text = line.as_str();
        let n = text.unicode_len();
        let mut i: usize = 0;
        while i < limit && i < n && is_whitespace(text.get_char(i)) && !crate::unicode::is_newline(text.get_char(i))
            invariant
                n == line@.len(),
                text@ == line@,
                i <= n,
                leading_blanks(line@, limit as int, 0) == i + leading_blanks(line@, limit as int, i as int),
            decreases n - i,
        {
            i = i + 1;
        }
        proof {
            crate::unicode::lemma_byte_len_ge_len(s);
            assert(ks + i <= s.len());
        }
        let indent = rope_slice_string(&self.text, ks, ks + i);
        proof {
            assert(indent@ =~= line@.take(i as int));
        }
        let mut string = String::from_str("\n");
        proof {
            reveal_strlit("\n");
        }
        string.append(indent.as_str());
        proof {
            assert(string@ =~= seq!['\n'] + line@.take(i as int));
            let f = self.layout_settings.spec_width_factor();
            let m = line@.len() + 1;
            assert(string@.len() <= m);
            assert((self.chars().len() + string@.len()) * f <= (self.chars().len() + m) * f) by (nonlinear_arith)
                requires string@.len() <= m;
        }
        let at = self.cursor;
        self.insert_string(at, string.as_str(), true, true, true);
    }

    /// Removes the selection if there is one; otherwise the grapheme cluster
    /// before the cursor (`before`) or after it.
    pub fn remove_character_or_selection_at_cursor(&mut self, before: bool)
        requires
            old(self).wf(),
        ensures
            final(self).wf(),
            final(self).selection_anchor is None,
            old(self).spec_selection_range() matches Some((a, b)) ==> {
                let removed = old(self).spec_text_between(a as nat, b as nat);
                &&& final(self).chars() == remove_bytes(old(self).chars(), a as nat, b as nat)
                &&& final(self).cursor == min(a as int, final(self).len() as int)
                &&& removed.len() > 0 ==> old(self).records(&*final(self), EditView::Delete(a, removed))
                &&& removed.len() == 0 ==> old(self).keeps_history(&*final(self))
            },
            final(self).target_column == final(self).spec_cursor_column(),
            old(self).selection_anchor is None ==> ({
                let s = old(self).chars();
                let c = old(self).cursor as nat;
                let other = doc_step(s, c, !before);
                let (a, b) = if before { (other, c) } else { (c, other) };
                let removed = s.subrange(char_of_byte(s, a) as int, char_of_byte(s, b) as int);
                &&& final(self).chars() == remove_bytes(s, a, b)
                &&& final(self).cursor == min(a as int, final(self).len() as int)
                &&& removed.len() > 0 ==> old(self).records(&*final(self), EditView::Delete(a as usize, removed))
                &&& removed.len() == 0 ==> old(self).keeps_history(&*final(self))
            }),
    {
        if self.selection_anchor.is_some() {
            self.cut_selection();
            return;
        }
        let other = self.step_cursor(!before);
        let (start, end) = if before { (other, self.cursor) } else { (self.cursor, other) };
        self.remove_range(start, end, true, true, true);
    }

}

/// The byte at which line `l` of `s` starts.
pub open spec fn line_byte(s: Seq<char>, l: nat) -> nat {
    byte_len(s.take(line_start(s, l)))
}

/// The text of line `l` of `s`, its line break included.
pub open spec fn line_text(s: Seq<char>, l: nat) -> Seq<char> {
    s.subrange(line_start(s, l), line_start(s, l + 1))
}

/// The line of `s` that holds byte `b`.
pub open spec fn cursor_line_of(s: Seq<char>, b: nat) -> nat {
    line_of_char(s, char_of_byte(s, b))
}

/// Byte `b` of `s` moved one grapheme cluster forward or back. Clusters are
/// those of the line that holds the byte; stepping back from the start of a
/// line lands on the last cluster of the line before.
pub open spec fn doc_step(s: Seq<char>, b: nat, forward: bool) -> nat {
    let l = cursor_line_of(s, b);
    let ls = line_byte(s, l);
    let t = line_text(s, l);
    let local = (b - ls) as nat;
    if forward {
        if b >= byte_len(s) {
            b
        } else {
            ls + next_boundary(graphemes_of(t), local)
        }
    } else {
        if b == 0 {
            0
        } else if local > 0 {
            ls + prev_boundary(graphemes_of(t), local)
        } else if l == 0 {
            0
        } else {
            let p = line_text(s, (l - 1) as nat);
            line_byte(s, (l - 1) as nat) + prev_boundary(graphemes_of(p), byte_len(p))
        }
    }
}

/// Byte `b` of `s` moved across `k` grapheme clusters, forward for positive `k`.
pub open spec fn doc_moved(s: Seq<char>, b: nat, k: int) -> nat
    decreases (if k < 0 { -k } else { k }),
{
    if k == 0 {
        b
    } else if k > 0 {
        doc_moved(s, doc_step(s, b, true), k - 1)
    } else {
        doc_moved(s, doc_step(s, b, false), k + 1)
    }
}

/// Whether `c` has the Unicode White_Space property.
pub open spec fn is_white_space(c: char) -> bool {
    ('\u{9}' <= c && c <= '\u{D}') || c == ' ' || c == '\u{85}' || c == '\u{A0}' || c
        == '\u{1680}' || ('\u{2000}' <= c && c <= '\u{200A}') || c == '\u{2028}' || c
        == '\u{2029}' || c == '\u{202F}' || c == '\u{205F}' || c == '\u{3000}'
}

/// Whether `c` has the Unicode White_Space property.
pub fn is_whitespace(c: char) -> (r: bool)
    ensures
        r == is_white_space(c),
{
    ('\u{9}' <= c && c <= '\u{D}') || c == ' ' || c == '\u{85}' || c == '\u{A0}' || c
        == '\u{1680}' || ('\u{2000}' <= c && c <= '\u{200A}') || c == '\u{2028}' || c
        == '\u{2029}' || c == '\u{202F}' || c == '\u{205F}' || c == '\u{3000}'
}

/// The next boundary is never before `b` while the end is not.
proof fn lemma_next_from_ge(gs: Seq<Seq<char>>, b: nat, i: int)
    requires
        boundary(gs, gs.len() as int) >= b,
        0 <= i,
    ensures
        next_from(gs, b, i) >= b,
    decreases gs.len() + 1 - i,
{
    if i <= gs.len() && boundary(gs, i) <= b {
        lemma_next_from_ge(gs, b, i + 1);
    }
}

/// No boundary lies past the end.
proof fn lemma_next_from_le(gs: Seq<Seq<char>>, b: nat, i: int)
    requires
        0 <= i,
    ensures
        next_from(gs, b, i) <= boundary(gs, gs.len() as int),
    decreases gs.len() + 1 - i,
{
    assert(gs.take(gs.len() as int) =~= gs);
    if i <= gs.len() {
        crate::unicode::lemma_prefix_within(gs, i);
        if boundary(gs, i) <= b {
            lemma_next_from_le(gs, b, i + 1);
        }
    }
}

/// The previous boundary is never after `b`.
proof fn lemma_prev_from_le(gs: Seq<Seq<char>>, b: nat, i: int)
    ensures
        prev_from(gs, b, i) <= b,
    decreases i + 1,
{
    if i >= 0 && boundary(gs, i) >= b {
        lemma_prev_from_le(gs, b, i - 1);
    }
}

/// A line ends where the next one starts.
pub proof fn lemma_line_adjacent(s: Seq<char>, l: nat)
    ensures
        line_byte(s, l) + byte_len(line_text(s, l)) == line_byte(s, l + 1),
{
    lemma_line_start_bounds(s, l);
    let a = line_start(s, l);
    let b = line_start(s, l + 1);
    assert(s.take(b) =~= s.take(a) + s.subrange(a, b));
    crate::unicode::lemma_byte_len_concat(s.take(a), s.subrange(a, b));
}

/// A byte lies in the line that holds it: at or after its start, and before
/// its end unless it is the end of the text.
pub proof fn lemma_cursor_in_line(s: Seq<char>, b: nat)
    requires
        b <= byte_len(s),
    ensures
        line_byte(s, cursor_line_of(s, b)) <= b,
        b <= line_byte(s, cursor_line_of(s, b)) + byte_len(line_text(s, cursor_line_of(s, b))),
        b < byte_len(s) ==> b < line_byte(s, cursor_line_of(s, b)) + byte_len(
            line_text(s, cursor_line_of(s, b)),
        ),
{
    let k = char_of_byte(s, b);
    let l = cursor_line_of(s, b);
    lemma_char_of_byte_mono(s, b, b);
    lemma_line_start_le(s, k as int);
    lemma_line_start_bounds(s, l);
    lemma_prefix_byte_mono(s, line_start(s, l), k as int);
    lemma_byte_of_char_le(s, b);
    lemma_line_adjacent(s, l);
    lemma_char_before_next_line(s, k as int);
    if b < byte_len(s) {
        lemma_byte_within_char(s, b);
        lemma_prefix_byte_mono(s, k + 1 as int, line_start(s, l + 1));
    } else {
        assert(s.take(s.len() as int) =~= s);
        lemma_char_of_prefix(s, s.len() as int);
    }
}

/// Whether `t` ends with a line break character.
pub open spec fn ends_with_break(t: Seq<char>) -> bool {
    t.len() > 0 && crate::unicode::is_line_break_char(t.last())
}

/// Where moving to the end of the line from byte `b` of `s` lands: one
/// cluster before the start of the next line, or the end of the document on
/// the last line.
pub open spec fn end_of_line(s: Seq<char>, b: nat) -> nat {
    if b == byte_len(s) {
        b
    } else {
        let l = cursor_line_of(s, b);
        if l + 1 < line_count(s) {
            doc_step(s, line_byte(s, l + 1), false)
        } else {
            line_byte(s, line_count(s))
        }
    }
}

/// Line `l` clamped to the lines `0..count` of a document.
pub open spec fn clamp_line(l: int, count: nat) -> nat {
    if l < 0 {
        0
    } else if l > count - 1 {
        (count - 1) as nat
    } else {
        l as nat
    }
}

/// `x` moved by `amount`, kept within `0..=usize::MAX`.
pub open spec fn add_clamped(x: usize, amount: isize) -> usize {
    let v = x + amount;
    if v < 0 {
        0
    } else if v > usize::MAX {
        usize::MAX
    } else {
        v as usize
    }
}

/// `a - b`, or zero.
pub open spec fn sat_sub(a: int, b: int) -> int {
    if a > b {
        a - b
    } else {
        0
    }
}

/// The scroll offset nearest to `scroll` that keeps position `pos` inside a
/// window of `extent` cells with a margin of `margin` (at most half the
/// extent) on each side.
pub open spec fn fit_scroll(scroll: usize, pos: usize, extent: usize, margin: usize) -> usize {
    let m = if margin < extent / 2 { margin as int } else { (extent / 2) as int };
    let low = sat_sub(pos as int, sat_sub(extent as int, m + 1));
    let high = sat_sub(pos as int, m);
    let raised = if scroll >= low { scroll as int } else { low };
    (if raised <= high { raised } else { high }) as usize
}

fn fit_scroll_exec(scroll: usize, pos: usize, extent: usize, margin: usize) -> (r: usize)
    ensures
        r == fit_scroll(scroll, pos, extent, margin),
{
    let m = if margin < extent / 2 { margin } else { extent / 2 };
    let low = pos.saturating_sub(extent.saturating_sub(m + 1));
    let high = pos.saturating_sub(m);
    let raised = if scroll >= low { scroll } else { low };
    if raised <= high { raised } else { high }
}

/// How many leading clusters of `l`, from the `i`-th on, start at or before `column`.
pub open spec fn count_upto(l: Seq<GraphemePosition>, column: int, i: int) -> nat
    decreases l.len() - i,
{
    if i < 0 || i >= l.len() || l[i].start_column > column {
        0
    } else {
        1 + count_upto(l, column, i + 1)
    }
}

/// How many characters of `line`, from the `i`-th on and before index
/// `limit`, are blanks: whitespace that is no line break.
pub open spec fn leading_blanks(line: Seq<char>, limit: int, i: int) -> nat
    decreases line.len() - i,
{
    if i < 0 || i >= limit || i >= line.len() || !is_white_space(line[i])
        || crate::unicode::is_line_break_char(line[i]) {
        0
    } else {
        1 + leading_blanks(line, limit, i + 1)
    }
}

/// Cutting never makes the document longer.
proof fn lemma_remove_room<L: LineLayout>(a: TextEditor<L>, b: TextEditor<L>, n: nat)
    requires
        a.has_room(n),
        b.chars().len() <= a.chars().len(),
        b.layout_settings == a.layout_settings,
    ensures
        b.has_room(n),
{
    let f = a.layout_settings.spec_width_factor();
    assert((b.chars().len() + n) * f <= (a.chars().len() + n) * f) by (nonlinear_arith)
        requires b.chars().len() <= a.chars().len();
}

/// Relies on std's `ToString` for `char`: a string of that one character.
#[verifier::external_body]
fn char_to_string(c: char) -> (r: String)
    ensures
        r@ == seq![c],
{
    c.to_string()
}

/// Start columns never decrease along a well-formed layout.
proof fn lemma_start_columns_sorted(lay: Seq<GraphemePosition>, line: Seq<char>, a: int, b: int)
    requires
        layout_wf(lay, line),
        0 <= a <= b < lay.len(),
    ensures
        lay[a].start_column <= lay[b].start_column,
    decreases b - a,
{
    if a < b {
        lemma_start_columns_sorted(lay, line, a, b - 1);
        assert(lay[b - 1].start_column <= lay[b - 1].end_column);
        assert(lay[b - 1].end_column == lay[b].start_column);
    }
}

proof fn lemma_count_before_at(lay: Seq<GraphemePosition>, line: Seq<char>, j: int, i: int)
    requires
        layout_wf(lay, line),
        0 <= i <= j < lay.len(),
    ensures
        count_before(lay, lay[j].cursor as int, i) == j - i,
    decreases j - i,
{
    if i < j {
        lemma_count_before_at(lay, line, j, i + 1);
    }
}

proof fn lemma_count_upto_at(lay: Seq<GraphemePosition>, line: Seq<char>, j: int, i: int)
    requires
        layout_wf(lay, line),
        0 <= i <= j + 1,
        0 <= j < lay.len(),
        j + 1 < lay.len() ==> lay[j].start_column < lay[j].end_column,
    ensures
        count_upto(lay, lay[j].start_column as int, i) == j + 1 - i,
    decreases j + 1 - i,
{
    if i <= j {
        lemma_start_columns_sorted(lay, line, i, j);
        lemma_count_upto_at(lay, line, j, i + 1);
    } else if j + 1 < lay.len() {
        assert(lay[j].end_column == lay[j + 1].start_column);
    }
}

/// Columns and cursors round-trip: where every cluster of a line but the last
/// takes at least one column (no zero-width clusters, as with plain text),
/// the column of the start of any cluster maps back to that very start.
pub proof fn lemma_column_round_trip(lay: Seq<GraphemePosition>, line: Seq<char>, j: int)
    requires
        layout_wf(lay, line),
        0 <= j < lay.len(),
        forall|i: int| 0 <= i < lay.len() - 1 ==> #[trigger] lay[i].start_column < lay[i].end_column,
    ensures
        ({
            let column = column_before(lay, lay[j].cursor as int);
            let n = count_upto(lay, column as int, 0);
            n > 0 && lay[n - 1].cursor == lay[j].cursor
        }),
{
    lemma_count_before_at(lay, line, j, 0);
    if j > 0 {
        assert(lay[j - 1].end_column == lay[j].start_column);
    }
    lemma_count_upto_at(lay, line, j, 0);
}

proof fn lemma_next_from_is_boundary(gs: Seq<Seq<char>>, b: nat, i: int)
    requires
        0 <= i,
    ensures
        exists|j: int| 0 <= j <= gs.len() && next_from(gs, b, i) == #[trigger] boundary(gs, j),
    decreases gs.len() + 1 - i,
{
    if i > gs.len() {
        assert(next_from(gs, b, i) == boundary(gs, gs.len() as int));
    } else if boundary(gs, i) > b {
        assert(next_from(gs, b, i) == boundary(gs, i));
    } else {
        lemma_next_from_is_boundary(gs, b, i + 1);
    }
}

proof fn lemma_prev_from_is_boundary(gs: Seq<Seq<char>>, b: nat, i: int)
    requires
        i <= gs.len(),
    ensures
        exists|j: int| 0 <= j <= gs.len() && prev_from(gs, b, i) == #[trigger] boundary(gs, j),
    decreases i + 1,
{
    if i < 0 {
        assert(gs.take(0) =~= Seq::<Seq<char>>::empty());
        assert(gs.take(0).flatten_alt() =~= Seq::<char>::empty());
        assert(encode_utf8(Seq::<char>::empty()) =~= Seq::<u8>::empty());
        assert(prev_from(gs, b, i) == boundary(gs, 0));
    } else if boundary(gs, i) < b {
        assert(prev_from(gs, b, i) == boundary(gs, i));
    } else {
        lemma_prev_from_is_boundary(gs, b, i - 1);
    }
}

/// The cursor stays on grapheme boundaries: a single step either stays put,
/// reaches the start of the document, or lands on a boundary between
/// grapheme clusters of some line (its start, a cluster's start, or its end).
pub proof fn lemma_step_on_boundary(s: Seq<char>, b: nat, forward: bool)
    ensures
        ({
            let r = doc_step(s, b, forward);
            r == b || r == 0 || exists|l: nat, j: int|
                0 <= j <= graphemes_of(line_text(s, l)).len() && r == line_byte(s, l)
                    + #[trigger] boundary(graphemes_of(line_text(s, l)), j)
        }),
{
    let l = cursor_line_of(s, b);
    let ls = line_byte(s, l);
    let t = line_text(s, l);
    let g = graphemes_of(t);
    let local = (b - ls) as nat;
    if forward {
        if b < byte_len(s) {
            lemma_next_from_is_boundary(g, local, 0);
            let j = choose|j: int| 0 <= j <= g.len() && next_from(g, local, 0) == #[trigger] boundary(g, j);
            assert(doc_step(s, b, forward) == line_byte(s, l) + boundary(graphemes_of(line_text(s, l)), j));
        }
    } else if b != 0 {
        if local > 0 {
            lemma_prev_from_is_boundary(g, local, g.len() as int);
            let j = choose|j: int| 0 <= j <= g.len() && prev_from(g, local, g.len() as int) == #[trigger] boundary(g, j);
            assert(doc_step(s, b, forward) == line_byte(s, l) + boundary(graphemes_of(line_text(s, l)), j));
        } else if l != 0 {
            let pl = (l - 1) as nat;
            let p = line_text(s, pl);
            let gp = graphemes_of(p);
            lemma_prev_from_is_boundary(gp, byte_len(p), gp.len() as int);
            let j = choose|j: int| 0 <= j <= gp.len() && prev_from(gp, byte_len(p), gp.len() as int) == #[trigger] boundary(gp, j);
            assert(doc_step(s, b, forward) == line_byte(s, pl) + boundary(graphemes_of(line_text(s, pl)), j));
        }
    }
}

/// Whether a word motion from byte `b` of `s` crosses a character whose
/// whitespace-ness is `ws`: the one at `b` going forward, the one before it
/// going back.
pub open spec fn run_goes_on(s: Seq<char>, b: nat, ws: bool, forward: bool) -> bool {
    let k = char_of_byte(s, b);
    if forward {
        b < byte_len(s) && is_white_space(s[k as int]) == ws
    } else {
        b > 0 && is_white_space(if k > 0 { s[k - 1] } else { ' ' }) == ws
    }
}

/// Where a run of whitespace (`ws`) or of other characters ends, moving
/// cluster by cluster from byte `b` forward or back; it also ends where a
/// step no longer moves.
pub open spec fn run_to(s: Seq<char>, b: nat, ws: bool, forward: bool) -> nat
    decreases (if forward { byte_len(s) - b } else { b as int }),
{
    if !run_goes_on(s, b, ws, forward) {
        b
    } else {
        let n = doc_step(s, b, forward);
        if forward && n > b && n <= byte_len(s) {
            run_to(s, n, ws, forward)
        } else if !forward && n < b {
            run_to(s, n, ws, forward)
        } else {
            b
        }
    }
}

/// Where a word motion from byte `b` ends: past a run of whitespace and then
/// a run of other characters (forward), or the mirror image (back).
pub open spec fn word_target(s: Seq<char>, b: nat, forward: bool) -> nat {
    run_to(s, run_to(s, b, true, forward), false, forward)
}

/// Whether the save anchor leaves room to drop the oldest action.
fn save_allows_eviction(save_anchor: Option<usize>) -> (r: bool)
    ensures
        r == (match save_anchor {
            Some(x) => x > 0,
            None => true,
        }),
{
    match save_anchor {
        Some(x) => x > 0,
        None => true,
    }
}

/// How many leading clusters of `l`, from the `i`-th on, start before byte `local`.
pub open spec fn count_before(l: Seq<GraphemePosition>, local: int, i: int) -> nat
    decreases l.len() - i,
{
    if i < 0 || i >= l.len() || l[i].cursor >= local {
        0
    } else {
        1 + count_before(l, local, i + 1)
    }
}

/// Where the last of the leading clusters of `l` that start before byte
/// `local` ends; zero where none does.
pub open spec fn column_before(l: Seq<GraphemePosition>, local: int) -> usize {
    let n = count_before(l, local, 0);
    if n == 0 {
        0
    } else {
        l[n - 1].end_column
    }
}

/// Longer prefixes take more bytes.
pub proof fn lemma_prefix_byte_mono(s: Seq<char>, a: int, b: int)
    requires
        0 <= a <= b <= s.len(),
    ensures
        byte_len(s.take(a)) <= byte_len(s.take(b)),
{
    assert(s.take(b) =~= s.take(a) + s.subrange(a, b));
    crate::unicode::lemma_byte_len_concat(s.take(a), s.subrange(a, b));
}

/// The character that a byte belongs to starts at or before that byte.
pub proof fn lemma_byte_of_char_le(s: Seq<char>, b: nat)
    ensures
        byte_len(s.take(char_of_byte(s, b) as int)) <= b,
    decreases s.len(),
{
    if s.len() == 0 {
        assert(s.take(0) =~= Seq::<char>::empty());
        assert(encode_utf8(Seq::<char>::empty()) =~= Seq::<u8>::empty());
    } else {
        let w = byte_len(seq![s[0]]);
        if b < w {
            assert(s.take(0) =~= Seq::<char>::empty());
            assert(encode_utf8(Seq::<char>::empty()) =~= Seq::<u8>::empty());
        } else {
            lemma_byte_of_char_le(s.drop_first(), (b - w) as nat);
            let k = char_of_byte(s, b) as int;
            lemma_char_of_byte_mono(s.drop_first(), (b - w) as nat, (b - w) as nat);
            assert(s.take(k) =~= seq![s[0]] + s.drop_first().take(k - 1));
            crate::unicode::lemma_byte_len_concat(seq![s[0]], s.drop_first().take(k - 1));
        }
    }
}

/// A removal takes the removed characters' bytes out of the document.
pub proof fn lemma_remove_len(s: Seq<char>, a: int, b: int)
    requires
        0 <= a <= b <= s.len(),
    ensures
        byte_len(s.take(a) + s.skip(b)) + byte_len(s.subrange(a, b)) == byte_len(s),
        (s.take(a) + s.skip(b)).len() == s.len() - (b - a),
{
    crate::unicode::lemma_byte_len_concat(s.take(a), s.skip(b));
    crate::unicode::lemma_byte_len_concat(s.take(a), s.subrange(a, b));
    crate::unicode::lemma_byte_len_concat(s.take(a) + s.subrange(a, b), s.skip(b));
    assert(s.take(a) + s.subrange(a, b) + s.skip(b) =~= s);
}

/// Undoing a sequence reverts its first action last.
pub proof fn lemma_revert_all_front(acts: Seq<EditView>, s: Seq<char>)
    requires
        acts.len() > 0,
    ensures
        revert_all(acts, s) == revert_action(acts[0], revert_all(acts.drop_first(), s)),
    decreases acts.len(),
{
    if acts.len() > 1 {
        lemma_revert_all_front(acts.drop_last(), revert_action(acts.last(), s));
        assert(acts.drop_last().drop_first() =~= acts.drop_first().drop_last());
        assert(acts.drop_first().last() == acts.last());
        assert(acts.drop_last()[0] == acts[0]);
        assert(revert_all(acts.drop_first(), s) == revert_all(
            acts.drop_first().drop_last(),
            revert_action(acts.drop_first().last(), s),
        ));
        assert(revert_all(acts, s) == revert_all(acts.drop_last(), revert_action(acts.last(), s)));
    } else {
        assert(acts.drop_last() =~= Seq::<EditView>::empty());
        assert(acts.drop_first() =~= Seq::<EditView>::empty());
        assert(revert_all(acts, s) == revert_all(acts.drop_last(), revert_action(acts.last(), s)));
        assert(acts.last() == acts[0]);
    }
}

/// Undoing a recordable action gives back the document it was done to.
pub proof fn lemma_revert_apply(a: EditView, s: Seq<char>)
    requires
        recordable(a, s),
    ensures
        revert_action(a, apply_action(a, s)) == s,
{
    match a {
        EditView::Insert(o, t) => {
            let k = choose|k: int| 0 <= k <= s.len() && byte_len(#[trigger] s.take(k)) == o;
            lemma_char_of_prefix(s, k);
            let s1 = s.take(k) + t + s.skip(k);
            assert(s1.take(k) =~= s.take(k));
            lemma_char_of_prefix(s1, k);
            assert(s1.take(k + t.len()) =~= s.take(k) + t);
            crate::unicode::lemma_byte_len_concat(s.take(k), t);
            lemma_char_of_prefix(s1, k + t.len());
            assert(s1.take(k) + s1.skip(k + t.len()) =~= s);
        },
        EditView::Delete(o, t) => {
            let k = choose|k: int| 0 <= k <= s.len() && byte_len(#[trigger] s.take(k)) == o;
            lemma_char_of_prefix(s, k);
            assert(s.take(k + t.len()) =~= s.take(k) + t);
            crate::unicode::lemma_byte_len_concat(s.take(k), t);
            lemma_char_of_prefix(s, k + t.len());
            let s1 = s.take(k) + s.skip(k + t.len());
            assert(s1.take(k) =~= s.take(k));
            lemma_char_of_prefix(s1, k);
            assert(s1.take(k) + t + s1.skip(k) =~= s);
        },
    }
}

/// Undo and redo are exact inverses: undoing, last first, every action of
/// a recorded sequence gives back the document it started from, and redoing
/// them all then gives back the edited document.
pub proof fn lemma_undo_redo_inverse(acts: Seq<EditView>, s: Seq<char>)
    requires
        recorded_from(acts, s),
    ensures
        revert_all(acts, apply_all(acts, s)) == s,
        apply_all(acts, revert_all(acts, apply_all(acts, s))) == apply_all(acts, s),
    decreases acts.len(),
{
    if acts.len() > 0 {
        lemma_revert_apply(acts.last(), apply_all(acts.drop_last(), s));
        lemma_undo_redo_inverse(acts.drop_last(), s);
    }
}

/// Recording an action never drops the save position below zero nor any
/// action between the save position and the redo position: after eviction
/// the same actions still lead from the saved state to the current one.
pub proof fn lemma_eviction_keeps_saved_path(
    hist: Seq<EditView>,
    current: nat,
    save: usize,
    size: nat,
    change: EditView,
)
    requires
        current <= hist.len(),
        save <= current,
    ensures
        ({
            let h1 = hist.take(current as int).push(change);
            let n = evictions(h1.len(), size, current + 1, Some(save));
            &&& n <= save
            &&& h1.skip(n as int).subrange(save - n, current + 1 - n) == h1.subrange(
                save as int,
                current + 1 as int,
            )
        }),
{
    let h1 = hist.take(current as int).push(change);
    let n = evictions(h1.len(), size, current + 1, Some(save));
    assert(h1.skip(n as int).subrange(save - n, current + 1 - n) =~= h1.subrange(
        save as int,
        current + 1 as int,
    ));
}

/// An insertion adds the inserted text's bytes to the document.
pub proof fn lemma_insert_len(s: Seq<char>, o: nat, t: Seq<char>)
    requires
        o <= byte_len(s),
    ensures
        byte_len(insert_at(s, o, t)) == byte_len(s) + byte_len(t),
        insert_at(s, o, t).len() == s.len() + t.len(),
{
    let k = char_of_byte(s, o) as int;
    lemma_char_of_byte_mono(s, o, o);
    crate::unicode::lemma_byte_len_concat(s.take(k), t);
    crate::unicode::lemma_byte_len_concat(s.take(k) + t, s.skip(k));
    crate::unicode::lemma_byte_len_concat(s.take(k), s.skip(k));
    assert(s.take(k) + s.skip(k) =~= s);
}

} // verus!
