//! `Text` operations in character offsets: the range a `stylize` covers,
//! what shortening or lengthening a text does to its spans, how much a
//! crop removes, and how full justification spreads the spaces.

use vstd::prelude::*;

verus! {

/// A style over the characters `start..end`; styles are told apart by
/// `style`.
#[derive(Clone, Copy, PartialEq, Eq, Debug)]
pub struct CharSpan {
    pub start: usize,
    pub end: usize,
    pub style: u64,
}

/// `Text.stylize(style, start, end)`'s range in a text of `length`
/// characters: negative offsets count from the end, the start is at least 0
/// and the end at most the length; nothing when the range is empty.
pub open spec fn stylize_spec(length: int, start: int, end: Option<int>) -> Option<(int, int)> {
    let s0 = if start < 0 { length + start } else { start };
    let s = if s0 < 0 { 0 } else { s0 };
    let e = match end {
        None => length,
        Some(e) => if e < 0 { length + e } else { e },
    };
    if s >= length || e <= s {
        None
    } else {
        Some((s, if e < length { e } else { length }))
    }
}

/// The character range `Text.stylize` styles, if any.
pub fn stylize_range(length: usize, start: isize, end: Option<isize>) -> (r: Option<(usize, usize)>)
    requires
        length <= isize::MAX,
    ensures
        match r {
            None => stylize_spec(length as int, start as int, match end { None => None, Some(e) => Some(e as int) }) is None,
            Some((s, e)) => stylize_spec(length as int, start as int, match end { None => None, Some(e) => Some(e as int) })
                == Some((s as int, e as int)),
        },
{
    let len = length as isize;
    // `len + start` cannot overflow: `len >= 0` and `start < 0` there.
    let s0: isize = if start < 0 { len + start } else { start };
    let s: isize = if s0 < 0 { 0 } else { s0 };
    let e: isize = match end {
        None => len,
        Some(e) => if e < 0 { len + e } else { e },
    };
    if s >= len || e <= s {
        None
    } else {
        Some((s as usize, if e < len { e as usize } else { length }))
    }
}

/// The spans of a text set to a new plain text of `new_len` characters
/// (from `old_len`): when shorter, spans starting past the end go and the
/// rest end at most at the new end.
pub open spec fn plain_spans_spec(spans: Seq<CharSpan>, old_len: nat, new_len: nat) -> Seq<CharSpan>
    decreases spans.len(),
{
    if new_len >= old_len || spans.len() == 0 {
        spans
    } else {
        let rest = plain_spans_spec(spans.drop_last(), old_len, new_len);
        let s = spans.last();
        if s.start < new_len {
            rest.push(CharSpan { end: if s.end < new_len { s.end } else { new_len as usize }, ..s })
        } else {
            rest
        }
    }
}

/// The spans of a text whose plain text is set (Rich's `plain` setter).
pub fn set_plain_spans(spans: &Vec<CharSpan>, old_len: usize, new_len: usize) -> (r: Vec<CharSpan>)
    ensures
        r@ == plain_spans_spec(spans@, old_len as nat, new_len as nat),
{
    let mut r: Vec<CharSpan> = Vec::new();
    let mut i: usize = 0;
    while i < spans.len()
        invariant
            i <= spans@.len(),
            r@ == plain_spans_spec(spans@.take(i as int), old_len as nat, new_len as nat),
        decreases spans@.len() - i,
    {
        let s = spans[i];
        proof {
            assert(spans@.take(i + 1 as int).drop_last() =~= spans@.take(i as int));
        }
        if new_len >= old_len {
            r.push(s);
        } else if s.start < new_len {
            r.push(CharSpan { start: s.start, end: if s.end < new_len { s.end } else { new_len }, style: s.style });
        }
        i = i + 1;
        proof {
            if new_len >= old_len {
                assert(r@ =~= spans@.take(i as int));
            }
        }
    }
    assert(spans@.take(spans@.len() as int) =~= spans@);
    r
}

/// `Text.extend_style(spaces)`'s spans: those reaching the end of a text of
/// `length` characters stretch over the added spaces.
pub open spec fn extend_spec(s: CharSpan, length: nat, spaces: nat) -> CharSpan {
    if s.end >= length {
        CharSpan { end: (s.end + spaces) as usize, ..s }
    } else {
        s
    }
}

/// The spans of `Text.extend_style(spaces)`.
pub fn extend_style_spans(spans: &Vec<CharSpan>, length: usize, spaces: usize) -> (r: Vec<CharSpan>)
    requires
        forall|i: int| 0 <= i < spans@.len() ==> spans@[i].end + spaces <= usize::MAX,
    ensures
        r@.len() == spans@.len(),
        forall|i: int| 0 <= i < r@.len() ==> #[trigger] r@[i] == extend_spec(spans@[i], length as nat, spaces as nat),
{
    let mut r: Vec<CharSpan> = Vec::new();
    let mut i: usize = 0;
    while i < spans.len()
        invariant
            i <= spans@.len(),
            r@.len() == i,
            forall|j: int| 0 <= j < spans@.len() ==> spans@[j].end + spaces <= usize::MAX,
            forall|j: int| 0 <= j < i ==> #[trigger] r@[j] == extend_spec(spans@[j], length as nat, spaces as nat),
        decreases spans@.len() - i,
    {
        let s = spans[i];
        if spaces > 0 && s.end >= length {
            r.push(CharSpan { start: s.start, end: s.end + spaces, style: s.style });
        } else {
            r.push(s);
        }
        i = i + 1;
    }
    r
}

/// How many characters `Text.rstrip_end(size)` removes from a text of
/// `length` characters ending in `trailing` whitespace characters: the
/// whitespace beyond `size`, no more.
pub fn rstrip_end_amount(length: usize, size: usize, trailing: usize) -> (n: usize)
    ensures
        n == (if length <= size || trailing == 0 {
            0
        } else if trailing < length - size {
            trailing as int
        } else {
            length - size
        }),
{
    if length <= size {
        return 0;
    }
    let excess = length - size;
    if trailing == 0 {
        0
    } else if trailing < excess {
        trailing
    } else {
        excess
    }
}

/// What `Text.set_length(length)` does to a text of `current` characters.
#[derive(Clone, Copy, PartialEq, Eq, Debug)]
pub enum LengthChange {
    /// Pad on the right with this many spaces.
    Pad(usize),
    /// Crop this many characters off the right.
    Crop(usize),
    Keep,
}

/// `Text.set_length`'s change.
pub fn set_length_change(current: usize, length: usize) -> (c: LengthChange)
    ensures
        current < length ==> c == LengthChange::Pad((length - current) as usize),
        current > length ==> c == LengthChange::Crop((current - length) as usize),
        current == length ==> c == LengthChange::Keep,
{
    if current < length {
        LengthChange::Pad(length - current)
    } else if current > length {
        LengthChange::Crop(current - length)
    } else {
        LengthChange::Keep
    }
}

/// The sum of `s`.
pub open spec fn total(s: Seq<usize>) -> int
    decreases s.len(),
{
    if s.len() == 0 {
        0
    } else {
        total(s.drop_last()) + s.last()
    }
}

proof fn lemma_total_update(s: Seq<usize>, i: int, v: usize)
    requires
        0 <= i < s.len(),
    ensures
        total(s.update(i, v)) == total(s) - s[i] + v,
    decreases s.len(),
{
    if i == s.len() - 1 {
        assert(s.update(i, v).drop_last() =~= s.drop_last());
    } else {
        lemma_total_update(s.drop_last(), i, v);
        assert(s.update(i, v).drop_last() =~= s.drop_last().update(i, v));
    }
}

proof fn lemma_total_ones(n: nat)
    ensures
        total(Seq::new(n, |i: int| 1usize)) == n,
    decreases n,
{
    if n > 0 {
        lemma_total_ones((n - 1) as nat);
        assert(Seq::new(n, |i: int| 1usize).drop_last() =~= Seq::new((n - 1) as nat, |i: int| 1usize));
    }
}

/// Full justification of a line of `words` words whose widths add up to
/// `words_size`, to `width` columns: one gap between each two words, each
/// one space wide, then the spaces missing from the width added one at a
/// time, to the last gap first, moving left and wrapping around. So every
/// gap gets the same share, and the last `extra % gaps` gaps one more.
pub open spec fn gap_width(words_size: nat, words: nat, width: nat, i: int) -> nat {
    let gaps = (words - 1) as nat;
    let extra = if words_size + gaps < width { (width - words_size - gaps) as nat } else { 0 };
    1 + extra / gaps + if i >= gaps - extra % gaps { 1nat } else { 0 }
}

/// The gaps of a fully justified line (see [`gap_width`]); none for a line
/// of fewer than two words.
pub fn justify_gaps(words_size: usize, words: usize, width: usize) -> (gaps: Vec<usize>)
    requires
        words_size + words + width <= usize::MAX,
    ensures
        words <= 1 ==> gaps@.len() == 0,
        words > 1 ==> gaps@.len() == words - 1,
        words > 1 ==> forall|i: int| 0 <= i < gaps@.len() ==> #[trigger] gaps@[i] == gap_width(words_size as nat, words as nat, width as nat, i),
        words > 1 ==> total(gaps@) == (if words_size + words - 1 < width { width - words_size } else { words - 1 }),
{
    let mut gaps: Vec<usize> = Vec::new();
    if words <= 1 {
        return gaps;
    }
    let m = words - 1;
    let mut k: usize = 0;
    while k < m
        invariant
            k <= m,
            gaps@ == Seq::new(k as nat, |i: int| 1usize),
        decreases m - k,
    {
        gaps.push(1);
        k = k + 1;
        assert(gaps@ =~= Seq::new(k as nat, |i: int| 1usize));
    }
    proof {
        lemma_total_ones(m as nat);
    }
    let mut num_spaces: usize = m;
    let mut base: usize = 0;
    let mut position: usize = 0;
    let ghost extra_total: int = if words_size + m < width { width - words_size - m } else { 0 };
    while words_size + num_spaces < width
        invariant
            m == words - 1 > 0,
            gaps@.len() == m,
            words_size + words + width <= usize::MAX,
            m <= num_spaces <= m + width,
            words_size + num_spaces <= width || num_spaces == m,
            num_spaces - m == base * m + position,
            0 <= position < m,
            forall|i: int| 0 <= i < m ==> #[trigger] gaps@[i] == 1 + base + if i >= m - position { 1int } else { 0 },
            total(gaps@) == num_spaces,
            base <= num_spaces,
        decreases width - num_spaces,
    {
        let slot = m - position - 1;
        let ghost ob = base;
        proof {
            assert(base <= base * m) by (nonlinear_arith)
                requires m >= 1, base >= 0;
            assert(gaps@[slot as int] <= 2 + base);
            lemma_total_update(gaps@, slot as int, (gaps@[slot as int] + 1) as usize);
        }
        let v = gaps[slot] + 1;
        gaps.set(slot, v);
        num_spaces = num_spaces + 1;
        if position + 1 == m {
            base = base + 1;
            position = 0;
            proof {
                assert(num_spaces - m == base * m + position) by (nonlinear_arith)
                    requires num_spaces - 1 - m == ob * m + (m - 1), base == ob + 1, position == 0;
                assert(base <= base * m) by (nonlinear_arith)
                    requires m >= 1, base >= 0;
            }
        } else {
            position = position + 1;
        }
    }
    proof {
        let extra = (num_spaces - m) as int;
        vstd::arithmetic::div_mod::lemma_fundamental_div_mod_converse(extra, m as int, base as int, position as int);
        assert forall|i: int| 0 <= i < gaps@.len() implies #[trigger] gaps@[i] == gap_width(words_size as nat, words as nat, width as nat, i) by {
            assert(extra == (if words_size + m < width { width - words_size - m } else { 0 }));
        }
    }
    gaps
}

} // verus!
