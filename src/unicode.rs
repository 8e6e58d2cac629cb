//! Grapheme and display-width utilities.

use unicode_segmentation::UnicodeSegmentation;
use unicode_width::UnicodeWidthChar;
use vstd::prelude::*;
use vstd::utf8::encode_utf8;

verus! {

/// Width given to a tab where the terminal expands tabs itself.
pub const TERM_TAB_WIDTH: usize = 0;

/// Display width that unicode-width gives a character in CJK contexts.
pub uninterp spec fn cjk_width_of(c: char) -> Option<usize>;

/// How unicode-segmentation splits a text into extended grapheme clusters.
pub uninterp spec fn graphemes_of(s: Seq<char>) -> Seq<Seq<char>>;

/// Relies on unicode_width::UnicodeWidthChar::width_cjk: `None` for control
/// codes, one column for printable ASCII, and never more than three columns.
#[verifier::external_body]
fn width_cjk(c: char) -> (r: Option<usize>)
    ensures
        r == cjk_width_of(c),
        r matches Some(w) ==> w <= 3,
        ('\u{20}' <= c && c < '\u{7F}') ==> r == Some(1usize),
        c < '\u{20}' ==> r is None,
{
    c.width_cjk()
}

/// Relies on unicode_segmentation::UnicodeSegmentation::graphemes with
/// extended clusters: the clusters are non-empty, come in order and together
/// spell the text.
#[verifier::external_body]
fn split_graphemes(s: &str) -> (r: Vec<String>)
    ensures
        r.deep_view() == graphemes_of(s@),
        r.deep_view().flatten_alt() == s@,
        forall|i: int| 0 <= i < r.len() ==> (#[trigger] r@[i])@.len() > 0,
{
    s.graphemes(true).map(String::from).collect()
}

/// Columns a single character takes: `tab_width` for a tab, its CJK width
/// otherwise, and nothing for a control character.
pub open spec fn char_width(c: char, tab_width: usize) -> nat {
    if c == '\t' {
        tab_width as nat
    } else {
        match cjk_width_of(c) {
            Some(w) => w as nat,
            None => 0,
        }
    }
}

/// Columns a sequence of characters takes.
pub open spec fn seq_width(s: Seq<char>, tab_width: usize) -> nat
    decreases s.len(),
{
    if s.len() == 0 {
        0
    } else {
        seq_width(s.drop_last(), tab_width) + char_width(s.last(), tab_width)
    }
}

/// Number of UTF-8 bytes of a sequence of characters.
pub open spec fn byte_len(s: Seq<char>) -> nat {
    encode_utf8(s).len()
}

/// The line break characters that the document recognises.
pub open spec fn is_line_break_char(c: char) -> bool {
    c == '\n' || c == '\r' || c == '\u{000B}' || c == '\u{000C}' || c == '\u{0085}'
        || c == '\u{2028}' || c == '\u{2029}'
}

/// Columns that one character takes on screen.
pub fn char_display_width(c: char, tab_width: usize) -> (r: usize)
    ensures
        r == char_width(c, tab_width),
        c != '\t' ==> r <= 3,
        r <= tab_width + 3,
{
    if c == '\t' {
        tab_width
    } else {
        match width_cjk(c) {
            Some(w) => w,
            None => 0,
        }
    }
}

/// Columns that a sequence of characters takes on screen.
pub fn string_width(chars: &[char], tab_width: usize) -> (r: usize)
    requires
        chars@.len() * (tab_width + 3) <= usize::MAX,
    ensures
        r == seq_width(chars@, tab_width),
        r <= chars@.len() * (tab_width + 3),
{
    let mut total: usize = 0;
    let mut i: usize = 0;
    while i < chars.len()
        invariant
            i <= chars@.len(),
            chars@.len() * (tab_width + 3) <= usize::MAX,
            total == seq_width(chars@.take(i as int), tab_width),
            total <= i * (tab_width + 3),
        decreases chars@.len() - i,
    {
        let w = char_display_width(chars[i], tab_width);
        proof {
            assert(chars@.take(i + 1).drop_last() =~= chars@.take(i as int));
            assert((i + 1) * (tab_width + 3) <= chars@.len() * (tab_width + 3)) by (nonlinear_arith)
                requires i + 1 <= chars@.len();
            assert((i + 1) * (tab_width + 3) == i * (tab_width + 3) + (tab_width + 3)) by (nonlinear_arith);
        }
        total = total + w;
        i = i + 1;
    }
    assert(chars@.take(i as int) =~= chars@);
    total
}

/// Whether `c` ends a line.
pub fn is_newline(c: char) -> (r: bool)
    ensures
        r == is_line_break_char(c),
{
    c == '\n' || c == '\r' || c == '\u{000B}' || c == '\u{000C}' || c == '\u{0085}'
        || c == '\u{2028}' || c == '\u{2029}'
}

/// Columns that a string takes on screen.
pub fn str_width(s: &str, tab_width: usize) -> (r: usize)
    requires
        s@.len() * (tab_width + 3) <= usize::MAX,
    ensures
        r == seq_width(s@, tab_width),
        r <= s@.len() * (tab_width + 3),
{
    let n = s.unicode_len();
    let mut total: usize = 0;
    let mut i: usize = 0;
    while i < n
        invariant
            n == s@.len(),
            i <= n,
            s@.len() * (tab_width + 3) <= usize::MAX,
            total == seq_width(s@.take(i as int), tab_width),
            total <= i * (tab_width + 3),
        decreases n - i,
    {
        let w = char_display_width(s.get_char(i), tab_width);
        proof {
            assert(s@.take(i + 1).drop_last() =~= s@.take(i as int));
            assert((i + 1) * (tab_width + 3) <= s@.len() * (tab_width + 3)) by (nonlinear_arith)
                requires i + 1 <= s@.len();
            assert((i + 1) * (tab_width + 3) == i * (tab_width + 3) + (tab_width + 3)) by (nonlinear_arith);
        }
        total = total + w;
        i = i + 1;
    }
    assert(s@.take(i as int) =~= s@);
    total
}

/// The extended grapheme clusters of `s`, in order.
pub fn graphemes(s: &str) -> (r: Vec<String>)
    ensures
        r.deep_view() == graphemes_of(s@),
        r.deep_view().flatten_alt() == s@,
        forall|i: int| 0 <= i < r.len() ==> (#[trigger] r@[i])@.len() > 0,
{
    split_graphemes(s)
}

pub proof fn lemma_seq_width_concat(a: Seq<char>, b: Seq<char>, tab_width: usize)
    ensures
        seq_width(a + b, tab_width) == seq_width(a, tab_width) + seq_width(b, tab_width),
    decreases b.len(),
{
    if b.len() == 0 {
        assert(a + b =~= a);
    } else {
        assert((a + b).drop_last() =~= a + b.drop_last());
        lemma_seq_width_concat(a, b.drop_last(), tab_width);
    }
}

pub proof fn lemma_byte_len_concat(a: Seq<char>, b: Seq<char>)
    ensures
        encode_utf8(a + b) == encode_utf8(a) + encode_utf8(b),
        byte_len(a + b) == byte_len(a) + byte_len(b),
    decreases a.len(),
{
    if a.len() == 0 {
        assert(a + b =~= b);
        assert(encode_utf8(a) + encode_utf8(b) =~= encode_utf8(b));
    } else {
        assert((a + b).drop_first() =~= a.drop_first() + b);
        lemma_byte_len_concat(a.drop_first(), b);
        assert(encode_utf8(a + b) =~= encode_utf8(a) + encode_utf8(b));
    }
}

pub proof fn lemma_byte_len_ge_len(a: Seq<char>)
    ensures
        byte_len(a) >= a.len(),
    decreases a.len(),
{
    if a.len() > 0 {
        lemma_byte_len_ge_len(a.drop_first());
    }
}

pub proof fn lemma_prefix_step(gs: Seq<Seq<char>>, i: int)
    requires
        0 <= i < gs.len(),
    ensures
        gs.take(i + 1).flatten_alt() == gs.take(i).flatten_alt() + gs[i],
{
    assert(gs.take(i + 1).drop_last() =~= gs.take(i));
}

pub proof fn lemma_prefix_within(gs: Seq<Seq<char>>, i: int)
    requires
        0 <= i <= gs.len(),
    ensures
        byte_len(gs.take(i).flatten_alt()) <= byte_len(gs.flatten_alt()),
        gs.take(i).flatten_alt().len() <= gs.flatten_alt().len(),
    decreases gs.len() - i,
{
    if i < gs.len() {
        lemma_prefix_step(gs, i);
        lemma_byte_len_concat(gs.take(i).flatten_alt(), gs[i]);
        lemma_prefix_within(gs, i + 1);
    } else {
        assert(gs.take(i) =~= gs);
    }
}

/// Byte offset of the boundary before cluster `i` of `gs` (the end for `gs.len()`).
pub open spec fn boundary(gs: Seq<Seq<char>>, i: int) -> nat {
    byte_len(gs.take(i).flatten_alt())
}

/// The first boundary from the `i`-th on that lies after byte `b`, or the end.
pub open spec fn next_from(gs: Seq<Seq<char>>, b: nat, i: int) -> nat
    decreases gs.len() + 1 - i,
{
    if i < 0 || i > gs.len() {
        boundary(gs, gs.len() as int)
    } else if boundary(gs, i) > b {
        boundary(gs, i)
    } else {
        next_from(gs, b, i + 1)
    }
}

/// The last boundary up to the `i`-th that lies before byte `b`, or zero.
pub open spec fn prev_from(gs: Seq<Seq<char>>, b: nat, i: int) -> nat
    decreases i + 1,
{
    if i < 0 {
        0
    } else if boundary(gs, i) < b {
        boundary(gs, i)
    } else {
        prev_from(gs, b, i - 1)
    }
}

/// The next grapheme boundary after byte `b` of the text split into `gs`.
pub open spec fn next_boundary(gs: Seq<Seq<char>>, b: nat) -> nat {
    next_from(gs, b, 0)
}

/// The previous grapheme boundary before byte `b` of the text split into `gs`.
pub open spec fn prev_boundary(gs: Seq<Seq<char>>, b: nat) -> nat {
    prev_from(gs, b, gs.len() as int)
}

/// Byte `b` moved across `k` grapheme clusters, forward for positive `k`.
pub open spec fn moved(gs: Seq<Seq<char>>, b: nat, k: int) -> nat
    decreases (if k < 0 { -k } else { k }),
{
    if k == 0 {
        b
    } else if k > 0 {
        moved(gs, next_boundary(gs, b), k - 1)
    } else {
        moved(gs, prev_boundary(gs, b), k + 1)
    }
}

/// The grapheme boundaries of a text: each cluster's start, then the end.
fn boundaries(text: &str) -> (r: Vec<usize>)
    requires
        byte_len(text@) <= usize::MAX,
    ensures
        r@.len() == graphemes_of(text@).len() + 1,
        forall|i: int| 0 <= i < r@.len() ==> r@[i] == boundary(graphemes_of(text@), i),
        forall|i: int| 0 <= i < r@.len() ==> r@[i] <= byte_len(text@),
        r@[r@.len() - 1] == byte_len(text@),
{
    let gs = graphemes(text);
    let ghost g = gs.deep_view();
    let mut out: Vec<usize> = Vec::new();
    let mut total: usize = 0;
    let mut i: usize = 0;
    proof {
        assert(g.take(0) =~= Seq::<Seq<char>>::empty());
        assert(encode_utf8(Seq::<char>::empty()) =~= Seq::<u8>::empty());
    }
    while i < gs.len()
        invariant
            g == gs.deep_view(),
            g == graphemes_of(text@),
            g.flatten_alt() == text@,
            byte_len(text@) <= usize::MAX,
            i <= gs.len(),
            out@.len() == i,
            total == boundary(g, i as int),
            total <= byte_len(text@),
            forall|k: int| 0 <= k < i ==> out@[k] == boundary(g, k),
            forall|k: int| 0 <= k < i ==> out@[k] <= byte_len(text@),
        decreases gs.len() - i,
    {
        out.push(total);
        let piece = gs[i].as_str();
        proof {
            assert(g[i as int] == gs@[i as int]@);
            lemma_prefix_step(g, i as int);
            lemma_byte_len_concat(g.take(i as int).flatten_alt(), g[i as int]);
            lemma_prefix_within(g, i + 1);
        }
        total = total + piece.len();
        i = i + 1;
    }
    out.push(total);
    assert(g.take(g.len() as int) =~= g);
    out
}

/// Byte `byte_cursor` of `text` moved across `amount` grapheme clusters,
/// forward for a positive amount; it stops at either end.
pub fn move_grapheme(amount: isize, byte_cursor: usize, text: &str) -> (r: usize)
    requires
        byte_len(text@) <= usize::MAX,
        byte_cursor <= byte_len(text@),
    ensures
        r == moved(graphemes_of(text@), byte_cursor as nat, amount as int),
        r <= byte_len(text@),
        amount >= 0 ==> r >= byte_cursor,
        amount <= 0 ==> r <= byte_cursor,
{
    let bounds = boundaries(text);
    let ghost g = graphemes_of(text@);
    let mut b = byte_cursor;
    let mut k = amount;
    while k != 0
        invariant
            bounds@.len() == g.len() + 1,
            forall|i: int| 0 <= i < bounds@.len() ==> bounds@[i] == boundary(g, i),
            moved(g, b as nat, k as int) == moved(g, byte_cursor as nat, amount as int),
            forall|i: int| 0 <= i < bounds@.len() ==> bounds@[i] <= byte_len(text@),
            bounds@[bounds@.len() - 1] == byte_len(text@),
            b <= byte_len(text@),
            amount >= 0 ==> k >= 0 && b >= byte_cursor,
            amount <= 0 ==> k <= 0 && b <= byte_cursor,
        decreases (if k < 0 { -k } else { k as int }),
    {
        if k > 0 {
            let mut i: usize = 0;
            while i < bounds.len() && bounds[i] <= b
                invariant
                    bounds@.len() == g.len() + 1,
                    forall|j: int| 0 <= j < bounds@.len() ==> bounds@[j] == boundary(g, j),
                    i <= bounds@.len(),
                    next_from(g, b as nat, 0) == next_from(g, b as nat, i as int),
                decreases bounds@.len() - i,
            {
                i = i + 1;
            }
            b = if i < bounds.len() { bounds[i] } else { bounds[bounds.len() - 1] };
            k = k - 1;
        } else {
            let mut i: usize = bounds.len();
            while i > 0 && bounds[i - 1] >= b
                invariant
                    bounds@.len() == g.len() + 1,
                    forall|j: int| 0 <= j < bounds@.len() ==> bounds@[j] == boundary(g, j),
                    i <= bounds@.len(),
                    prev_from(g, b as nat, g.len() as int) == prev_from(g, b as nat, i - 1),
                decreases i,
            {
                i = i - 1;
            }
            b = if i > 0 { bounds[i - 1] } else { 0 };
            k = k + 1;
        }
    }
    b
}

} // verus!
