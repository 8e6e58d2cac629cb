//! The document: a rope of characters, addressed by byte, character and line.

use crate::unicode::{byte_len, is_line_break_char};
use ropey::Rope;
use vstd::prelude::*;
use vstd::utf8::encode_utf8;

verus! {

#[verifier::external_type_specification]
#[verifier::external_body]
pub struct ExRope(ropey::Rope);

/// The characters that a rope holds.
pub uninterp spec fn rope_chars(r: Rope) -> Seq<char>;

/// Index of the character that byte `b` of `s` belongs to; `s.len()` at or
/// past the end.
pub open spec fn char_of_byte(s: Seq<char>, b: nat) -> nat
    decreases s.len(),
{
    if s.len() == 0 {
        0
    } else if b < byte_len(seq![s[0]]) {
        0
    } else {
        1 + char_of_byte(s.drop_first(), (b - byte_len(seq![s[0]])) as nat)
    }
}

/// Whether a line ends just before character index `i` of `s`: after a line
/// break character, where a carriage return directly followed by a line feed
/// ends no line of its own.
pub open spec fn ends_line(s: Seq<char>, i: int) -> bool {
    &&& 0 < i <= s.len()
    &&& is_line_break_char(s[i - 1])
    &&& !(s[i - 1] == '\r' && i < s.len() && s[i] == '\n')
}

/// Number of line endings among the first `k` characters of `s`.
pub open spec fn lines_before(s: Seq<char>, k: int) -> nat
    decreases k,
{
    if k <= 0 {
        0
    } else {
        lines_before(s, k - 1) + if ends_line(s, k) {
            1nat
        } else {
            0nat
        }
    }
}

/// Smallest character index from `k` on at which `l` lines have ended, or
/// the end of `s`.
pub open spec fn first_index_reaching(s: Seq<char>, l: nat, k: int) -> int
    decreases s.len() - k,
{
    if k >= s.len() {
        s.len() as int
    } else if lines_before(s, k) >= l {
        k
    } else {
        first_index_reaching(s, l, k + 1)
    }
}

/// Character index at which line `l` starts; the end of `s` for the line
/// one past the last.
pub open spec fn line_start(s: Seq<char>, l: nat) -> int {
    first_index_reaching(s, l, 0)
}

/// Number of lines of `s`: its line endings plus one.
pub open spec fn line_count(s: Seq<char>) -> nat {
    lines_before(s, s.len() as int) + 1
}

/// Index of the line that holds character index `k`.
pub open spec fn line_of_char(s: Seq<char>, k: nat) -> nat {
    lines_before(s, k as int)
}

/// Relies on ropey::Rope::from_str: the rope holds the text.
#[verifier::external_body]
pub(crate) fn rope_from_str(text: &str) -> (r: Rope)
    ensures
        rope_chars(r) == text@,
{
    Rope::from_str(text)
}

/// Relies on ropey::Rope::len_bytes: the UTF-8 length of the text.
#[verifier::external_body]
pub(crate) fn rope_len_bytes(r: &Rope) -> (n: usize)
    ensures
        n == byte_len(rope_chars(*r)),
{
    r.len_bytes()
}

/// Relies on ropey::Rope::len_chars: the number of characters.
#[verifier::external_body]
pub(crate) fn rope_len_chars(r: &Rope) -> (n: usize)
    ensures
        n == rope_chars(*r).len(),
{
    r.len_chars()
}

/// Relies on ropey::Rope::len_lines: the line breaks plus one.
#[verifier::external_body]
pub(crate) fn rope_len_lines(r: &Rope) -> (n: usize)
    ensures
        n == line_count(rope_chars(*r)),
{
    r.len_lines()
}

/// Relies on ropey::Rope::byte_to_char: the character a byte belongs to,
/// one past the end for the end.
#[verifier::external_body]
pub(crate) fn rope_byte_to_char(r: &Rope, b: usize) -> (k: usize)
    requires
        b <= byte_len(rope_chars(*r)),
    ensures
        k == char_of_byte(rope_chars(*r), b as nat),
{
    r.byte_to_char(b)
}

/// Relies on ropey::Rope::byte_to_line: the line endings before the byte.
#[verifier::external_body]
pub(crate) fn rope_byte_to_line(r: &Rope, b: usize) -> (l: usize)
    requires
        b <= byte_len(rope_chars(*r)),
    ensures
        l == line_of_char(rope_chars(*r), char_of_byte(rope_chars(*r), b as nat)),
{
    r.byte_to_line(b)
}

/// Relies on ropey::Rope::line_to_byte: the byte at which the line starts,
/// the end of the text for the line one past the last.
#[verifier::external_body]
pub(crate) fn rope_line_to_byte(r: &Rope, l: usize) -> (b: usize)
    requires
        l <= line_count(rope_chars(*r)),
    ensures
        b == byte_len(rope_chars(*r).take(line_start(rope_chars(*r), l as nat))),
{
    r.line_to_byte(l)
}

/// Relies on ropey::Rope::line: the text of the line, its line break included.
#[verifier::external_body]
pub(crate) fn rope_line(r: &Rope, l: usize) -> (t: String)
    requires
        l < line_count(rope_chars(*r)),
    ensures
        t@ == rope_chars(*r).subrange(
            line_start(rope_chars(*r), l as nat),
            line_start(rope_chars(*r), (l + 1) as nat),
        ),
{
    r.line(l).to_string()
}

/// Relies on ropey::Rope::insert: the text goes in before character `k`.
#[verifier::external_body]
pub(crate) fn rope_insert(r: &mut Rope, k: usize, text: &str)
    requires
        k <= rope_chars(*old(r)).len(),
    ensures
        rope_chars(*final(r)) == rope_chars(*old(r)).take(k as int) + text@ + rope_chars(
            *old(r),
        ).skip(k as int),
{
    r.insert(k, text)
}

/// Relies on ropey::Rope::remove: characters `a` up to `b` are taken out.
#[verifier::external_body]
pub(crate) fn rope_remove(r: &mut Rope, a: usize, b: usize)
    requires
        a <= b <= rope_chars(*old(r)).len(),
    ensures
        rope_chars(*final(r)) == rope_chars(*old(r)).take(a as int) + rope_chars(*old(r)).skip(
            b as int,
        ),
{
    r.remove(a..b)
}

/// Relies on ropey::Rope::slice and its conversion to a string: characters
/// `a` up to `b`.
#[verifier::external_body]
pub(crate) fn rope_slice_string(r: &Rope, a: usize, b: usize) -> (t: String)
    requires
        a <= b <= rope_chars(*r).len(),
    ensures
        t@ == rope_chars(*r).subrange(a as int, b as int),
{
    r.slice(a..b).to_string()
}

/// Relies on ropey::Rope::get_char: the character at index `k`, if any.
#[verifier::external_body]
pub(crate) fn rope_get_char(r: &Rope, k: usize) -> (c: Option<char>)
    ensures
        k < rope_chars(*r).len() ==> c == Some(rope_chars(*r)[k as int]),
        k >= rope_chars(*r).len() ==> c is None,
{
    r.get_char(k)
}

/// Relies on the conversion of ropey::Rope to a string: the whole text.
#[verifier::external_body]
pub(crate) fn rope_to_string(r: &Rope) -> (t: String)
    ensures
        t@ == rope_chars(*r),
{
    r.to_string()
}

pub proof fn lemma_byte_len_first(s: Seq<char>)
    requires
        s.len() > 0,
    ensures
        byte_len(s) == byte_len(seq![s[0]]) + byte_len(s.drop_first()),
        byte_len(seq![s[0]]) >= 1,
{
    assert(seq![s[0]].drop_first() =~= Seq::<char>::empty());
    assert(encode_utf8(Seq::<char>::empty()) =~= Seq::<u8>::empty());
}

/// The character index of the byte offset of a prefix is the prefix's length.
pub proof fn lemma_char_of_prefix(s: Seq<char>, k: int)
    requires
        0 <= k <= s.len(),
    ensures
        char_of_byte(s, byte_len(s.take(k))) == k,
        byte_len(s.take(k)) <= byte_len(s),
    decreases k,
{
    if k == 0 {
        assert(s.take(0) =~= Seq::<char>::empty());
        assert(encode_utf8(Seq::<char>::empty()) =~= Seq::<u8>::empty());
        if s.len() > 0 {
            lemma_byte_len_first(s);
        }
        crate::unicode::lemma_byte_len_concat(s.take(0), s);
    } else {
        lemma_byte_len_first(s);
        lemma_byte_len_first(s.take(k));
        assert(s.take(k).drop_first() =~= s.drop_first().take(k - 1));
        assert(s.take(k)[0] == s[0]);
        lemma_char_of_prefix(s.drop_first(), k - 1);
    }
}

/// Character indices grow with byte offsets, and stay within the text.
pub proof fn lemma_char_of_byte_mono(s: Seq<char>, a: nat, b: nat)
    requires
        a <= b,
    ensures
        char_of_byte(s, a) <= char_of_byte(s, b),
        char_of_byte(s, b) <= s.len(),
    decreases s.len(),
{
    if s.len() > 0 {
        let w = byte_len(seq![s[0]]);
        if a >= w {
            lemma_char_of_byte_mono(s.drop_first(), (a - w) as nat, (b - w) as nat);
        } else if b >= w {
            lemma_char_of_byte_mono(s.drop_first(), 0, (b - w) as nat);
        }
    }
}

/// The search for a line start stays within `k..=s.len()`.
pub proof fn lemma_first_index_bounds(s: Seq<char>, l: nat, k: int)
    requires
        0 <= k <= s.len(),
    ensures
        k <= first_index_reaching(s, l, k) <= s.len(),
    decreases s.len() - k,
{
    if k < s.len() && lines_before(s, k) < l {
        lemma_first_index_bounds(s, l, k + 1);
    }
}

/// Later lines start no earlier.
pub proof fn lemma_first_index_mono(s: Seq<char>, l: nat, k: int)
    requires
        0 <= k <= s.len(),
    ensures
        first_index_reaching(s, l, k) <= first_index_reaching(s, l + 1, k),
    decreases s.len() - k,
{
    if k < s.len() {
        if lines_before(s, k) >= l + 1 {
        } else if lines_before(s, k) >= l {
            lemma_first_index_bounds(s, l + 1, k);
        } else {
            lemma_first_index_mono(s, l, k + 1);
        }
    }
}

/// The search stops no later than an index where enough lines have ended.
pub proof fn lemma_first_index_le(s: Seq<char>, l: nat, k0: int, k: int)
    requires
        0 <= k0 <= k <= s.len(),
        lines_before(s, k) >= l,
    ensures
        first_index_reaching(s, l, k0) <= k,
    decreases k - k0,
{
    if k0 < s.len() && lines_before(s, k0) < l {
        lemma_first_index_le(s, l, k0 + 1, k);
    }
}

/// Line starts lie within the text and come in order.
pub proof fn lemma_line_start_bounds(s: Seq<char>, l: nat)
    ensures
        0 <= line_start(s, l) <= line_start(s, l + 1) <= s.len(),
{
    lemma_first_index_bounds(s, l, 0);
    lemma_first_index_bounds(s, l + 1, 0);
    lemma_first_index_mono(s, l, 0);
}

/// The line that holds character `k` starts at or before it.
pub proof fn lemma_line_start_le(s: Seq<char>, k: int)
    requires
        0 <= k <= s.len(),
    ensures
        line_start(s, line_of_char(s, k as nat)) <= k,
{
    lemma_first_index_le(s, line_of_char(s, k as nat), 0, k);
}

/// Line endings only accumulate.
pub proof fn lemma_lines_before_mono(s: Seq<char>, a: int, b: int)
    requires
        a <= b,
    ensures
        lines_before(s, a) <= lines_before(s, b),
    decreases b - a,
{
    if a < b {
        lemma_lines_before_mono(s, a, b - 1);
    }
}

/// Every character lies on one of the lines.
pub proof fn lemma_line_of_char_bound(s: Seq<char>, k: int)
    requires
        0 <= k <= s.len(),
    ensures
        line_of_char(s, k as nat) < line_count(s),
{
    lemma_lines_before_mono(s, k, s.len() as int);
}

/// A byte before the end lies before the end of its character.
pub proof fn lemma_byte_within_char(s: Seq<char>, b: nat)
    requires
        b < byte_len(s),
    ensures
        char_of_byte(s, b) < s.len(),
        b < byte_len(s.take(char_of_byte(s, b) + 1 as int)),
    decreases s.len(),
{
    if s.len() == 0 {
        assert(encode_utf8(s) =~= Seq::<u8>::empty());
    } else {
        lemma_byte_len_first(s);
        let w = byte_len(seq![s[0]]);
        if b < w {
            assert(s.take(1) =~= seq![s[0]]);
        } else {
            lemma_byte_within_char(s.drop_first(), (b - w) as nat);
            let k = char_of_byte(s, b) as int;
            assert(s.take(k + 1) =~= seq![s[0]] + s.drop_first().take(k));
            crate::unicode::lemma_byte_len_concat(seq![s[0]], s.drop_first().take(k));
        }
    }
}

/// The search for a line start passes every index where too few lines have ended.
pub proof fn lemma_first_index_past(s: Seq<char>, l: nat, k0: int, k: int)
    requires
        0 <= k0 <= k < s.len(),
        lines_before(s, k) < l,
    ensures
        first_index_reaching(s, l, k0) > k,
    decreases k - k0,
{
    lemma_lines_before_mono(s, k0, k);
    if k0 < k {
        lemma_first_index_past(s, l, k0 + 1, k);
    } else {
        lemma_first_index_bounds(s, l, k0 + 1);
    }
}

/// The line that holds character `k` ends after it, or at the end of the text.
pub proof fn lemma_char_before_next_line(s: Seq<char>, k: int)
    requires
        0 <= k <= s.len(),
    ensures
        k < s.len() ==> line_start(s, line_of_char(s, k as nat) + 1) > k,
        k == s.len() ==> line_start(s, line_of_char(s, k as nat) + 1) == s.len(),
{
    let l = line_of_char(s, k as nat);
    if k < s.len() {
        lemma_first_index_past(s, l + 1, 0, k);
    } else {
        lemma_first_index_bounds(s, l + 1, 0);
        lemma_first_index_never(s, l + 1, 0);
    }
}

/// Where the text never reaches `l` line endings, the search ends at its end.
pub proof fn lemma_first_index_never(s: Seq<char>, l: nat, k0: int)
    requires
        0 <= k0 <= s.len(),
        lines_before(s, s.len() as int) < l,
    ensures
        first_index_reaching(s, l, k0) == s.len(),
    decreases s.len() - k0,
{
    if k0 < s.len() {
        lemma_lines_before_mono(s, k0, s.len() as int);
        lemma_first_index_never(s, l, k0 + 1);
    }
}

/// At the start of a line, exactly that many lines have ended.
pub proof fn lemma_first_index_exact(s: Seq<char>, l: nat, k0: int)
    requires
        0 <= k0 <= s.len(),
        lines_before(s, k0) <= l,
        l <= lines_before(s, s.len() as int),
    ensures
        lines_before(s, first_index_reaching(s, l, k0)) == l,
    decreases s.len() - k0,
{
    if k0 < s.len() && lines_before(s, k0) < l {
        lemma_first_index_exact(s, l, k0 + 1);
    }
}

/// The line that holds the start of line `l` is line `l`.
pub proof fn lemma_line_of_line_start(s: Seq<char>, l: nat)
    requires
        l < line_count(s),
    ensures
        line_of_char(s, line_start(s, l) as nat) == l,
{
    lemma_first_index_exact(s, l, 0);
    lemma_first_index_bounds(s, l, 0);
}

} // verus!
