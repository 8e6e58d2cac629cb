//! The line-number gutter and the one-line text region.

use vstd::prelude::*;

verus! {

/// Number of decimal digits of `n` (one for zero).
pub open spec fn digit_count(n: nat) -> nat
    decreases n,
{
    if n < 10 {
        1
    } else {
        1 + digit_count(n / 10)
    }
}

/// The gutter that numbers the visible lines.
#[derive(Copy, Clone)]
pub struct LineNumbers {
    /// Index of the first visible line.
    pub start: usize,
    /// Number of lines of the document.
    pub total: usize,
    /// Number (from one) of the line that holds the cursor.
    pub current: usize,
    /// Whether lines other than the current one show their distance to it.
    pub relative: bool,
}

pub fn count_digits(n: usize) -> (r: usize)
    ensures
        r == digit_count(n as nat),
        1 <= r <= 20,
{
    proof {
        lemma_digit_count_bound(n as nat);
    }
    let mut m = n;
    let mut r: usize = 1;
    while m >= 10
        invariant
            r + digit_count(m as nat) == digit_count(n as nat) + 1,
            1 <= r,
            1 <= digit_count(n as nat) <= 20,
        decreases m,
    {
        assert(digit_count((m / 10) as nat) >= 1);
        m = m / 10;
        r = r + 1;
    }
    r
}

proof fn lemma_digit_count_bound(n: nat)
    requires
        n <= usize::MAX,
    ensures
        1 <= digit_count(n) <= 20,
{
    reveal_with_fuel(pow10, 21);
    assert(pow10(20) == 100000000000000000000nat);
    lemma_digit_count_le(n, 20);
}

proof fn lemma_digit_count_le(n: nat, k: nat)
    requires
        k >= 1,
        n < pow10(k),
    ensures
        digit_count(n) <= k,
    decreases k,
{
    if n >= 10 {
        if k == 1 {
            assert(pow10(1) == 10 * pow10(0));
        }
        let p = pow10((k - 1) as nat);
        assert(n / 10 < p) by (nonlinear_arith)
            requires n < 10 * p;
        lemma_digit_count_le(n / 10, (k - 1) as nat);
    }
}

pub open spec fn pow10(k: nat) -> nat
    decreases k,
{
    if k == 0 {
        1
    } else {
        10 * pow10((k - 1) as nat)
    }
}

pub proof fn lemma_pow10_mono(a: nat, b: nat)
    requires
        a <= b,
    ensures
        pow10(a) <= pow10(b),
        pow10(a) >= 1,
    decreases b,
{
    if a < b {
        lemma_pow10_mono(a, (b - 1) as nat);
    } else if a > 0 {
        lemma_pow10_mono((a - 1) as nat, (a - 1) as nat);
    }
}

impl LineNumbers {
    pub fn new(start: usize, total: usize, current: usize, relative: bool) -> (r: Self)
        ensures
            r.start == start,
            r.total == total,
            r.current == current,
            r.relative == relative,
    {
        Self { start, total, current, relative }
    }

    pub open spec fn spec_width_number(self, height: usize) -> nat {
        if self.relative {
            digit_count(if height < self.total { self.total as nat } else { height as nat })
        } else {
            digit_count(self.total as nat)
        }
    }

    /// Columns of the gutter: the digits and a space on each side.
    pub fn width(self, height: usize) -> (r: usize)
        ensures
            r == self.spec_width_number(height) + 2,
    {
        self.width_number(height) + 2
    }

    /// Digits needed for the largest number the gutter shows.
    pub fn width_number(self, height: usize) -> (r: usize)
        ensures
            r == self.spec_width_number(height),
            1 <= r <= 20,
    {
        if self.relative {
            let max = if height < self.total { self.total } else { height };
            count_digits(max)
        } else {
            count_digits(self.total)
        }
    }
}

/// A region showing one line of text, padded with spaces.
pub struct TextLine<'a> {
    pub string: &'a str,
}

impl<'a> TextLine<'a> {
    pub fn new(string: &'a str) -> (r: Self)
        ensures
            r.string == string,
    {
        Self { string }
    }
}

} // verus!
