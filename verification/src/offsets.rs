//! Character offsets (Python's) and byte offsets (Rust's) into UTF-8 text,
//! and the conversions between them.

use vstd::prelude::*;

verus! {

/// The number of bytes UTF-8 encodes `c` in.
pub open spec fn utf8_len(c: char) -> nat {
    if (c as u32) < 0x80 {
        1
    } else if (c as u32) < 0x800 {
        2
    } else if (c as u32) < 0x10000 {
        3
    } else {
        4
    }
}

/// The number of bytes UTF-8 encodes the characters `s` in.
pub open spec fn byte_len(s: Seq<char>) -> nat
    decreases s.len(),
{
    if s.len() == 0 {
        0
    } else {
        byte_len(s.drop_last()) + utf8_len(s.last())
    }
}

/// The byte offset of character `i` of `s`.
pub open spec fn byte_index(s: Seq<char>, i: int) -> nat {
    byte_len(s.take(i))
}

proof fn lemma_byte_index_step(s: Seq<char>, i: int)
    requires
        0 <= i < s.len(),
    ensures
        byte_index(s, i + 1) == byte_index(s, i) + utf8_len(s[i]),
{
    assert(s.take(i + 1).drop_last() =~= s.take(i));
}

proof fn lemma_byte_index_mono(s: Seq<char>, i: int, j: int)
    requires
        0 <= i < j <= s.len(),
    ensures
        byte_index(s, i) < byte_index(s, j),
    decreases j - i,
{
    lemma_byte_index_step(s, j - 1);
    if i < j - 1 {
        lemma_byte_index_mono(s, i, j - 1);
    }
}

fn char_len_utf8(c: char) -> (n: usize)
    ensures
        n == utf8_len(c),
{
    let v = c as u32;
    if v < 0x80 {
        1
    } else if v < 0x800 {
        2
    } else if v < 0x10000 {
        3
    } else {
        4
    }
}

/// The byte offset of every character boundary of `s`, the end included.
pub fn boundaries(s: &str) -> (b: Vec<usize>)
    requires
        byte_len(s@) <= usize::MAX,
    ensures
        b@.len() == s@.len() + 1,
        forall|k: int| 0 <= k < b@.len() ==> #[trigger] b@[k] == byte_index(s@, k),
{
    let cs = crate::chars::chars_of(s);
    let mut b: Vec<usize> = Vec::new();
    let mut offset: usize = 0;
    let mut i: usize = 0;
    b.push(0);
    proof {
        assert(s@.take(0) =~= Seq::<char>::empty());
    }
    while i < cs.len()
        invariant
            i <= cs.len(),
            cs@ == s@,
            byte_len(s@) <= usize::MAX,
            b@.len() == i + 1,
            offset == byte_index(s@, i as int),
            forall|k: int| 0 <= k < b@.len() ==> #[trigger] b@[k] == byte_index(s@, k),
        decreases cs.len() - i,
    {
        proof {
            lemma_byte_index_step(s@, i as int);
            if i + 1 < s@.len() {
                lemma_byte_index_mono(s@, i + 1, s@.len() as int);
            }
            assert(s@.take(s@.len() as int) =~= s@);
        }
        offset = offset + char_len_utf8(cs[i]);
        b.push(offset);
        i = i + 1;
    }
    b
}

/// The byte offset of character `index` of `line`; none past its end.
pub fn byte_offset(line: &str, index: usize) -> (r: Option<usize>)
    requires
        byte_len(line@) <= usize::MAX,
    ensures
        index <= line@.len() ==> r == Some(byte_index(line@, index as int) as usize),
        index > line@.len() ==> r is None,
{
    let b = boundaries(line);
    if index < b.len() {
        Some(b[index])
    } else {
        None
    }
}

/// A Python index into `n` characters: a negative one counts from the end,
/// and the result is clamped to `0..=n`.
pub open spec fn python_index(index: int, n: int) -> int {
    let i = if index < 0 { n + index } else { index };
    if i < 0 {
        0
    } else if i > n {
        n
    } else {
        i
    }
}

/// The byte offset of character `index` of `plain` (negative counts from the
/// end, as in Python), clamped to the text.
pub fn text_byte_offset(plain: &str, index: isize) -> (o: usize)
    requires
        byte_len(plain@) <= usize::MAX,
        plain@.len() <= isize::MAX,
    ensures
        o == byte_index(plain@, python_index(index as int, plain@.len() as int)),
{
    let b = boundaries(plain);
    let n: isize = (b.len() - 1) as isize;
    let i: isize = if index < 0 {
        if index < -n { 0 } else { n + index }
    } else if index > n {
        n
    } else {
        index
    };
    b[i as usize]
}

/// The byte range of a highlighted span given in characters of `source`; a
/// span that reaches past the line becomes `usize::MAX..usize::MAX`, which
/// span validation drops.
pub fn span_byte_range(source: &str, start: usize, end: usize) -> (r: (usize, usize))
    requires
        byte_len(source@) <= usize::MAX,
    ensures
        start <= source@.len() && end <= source@.len() ==> r == (
            byte_index(source@, start as int) as usize,
            byte_index(source@, end as int) as usize,
        ),
        !(start <= source@.len() && end <= source@.len()) ==> r == (usize::MAX, usize::MAX),
{
    match (byte_offset(source, start), byte_offset(source, end)) {
        (Some(s), Some(e)) => (s, e),
        _ => (usize::MAX, usize::MAX),
    }
}

/// Whether offsets increase strictly.
pub open spec fn increasing(b: Seq<usize>) -> bool {
    forall|i: int, j: int| 0 <= i < j < b.len() ==> #[trigger] b[i] < #[trigger] b[j]
}

/// The byte offset of character `index`, clamped to the end of the text.
pub fn byte_at(bounds: &Vec<usize>, index: usize) -> (o: usize)
    requires
        bounds@.len() >= 1,
    ensures
        o == bounds@[if index < bounds@.len() { index as int } else { bounds@.len() - 1 }],
{
    if index < bounds.len() {
        bounds[index]
    } else {
        bounds[bounds.len() - 1]
    }
}

/// The character offset of byte `offset`: the number of boundaries before
/// it (so a byte inside a character counts that character).
pub fn char_at(bounds: &Vec<usize>, offset: usize) -> (c: usize)
    requires
        increasing(bounds@),
    ensures
        c <= bounds@.len(),
        forall|k: int| 0 <= k < c ==> #[trigger] bounds@[k] < offset,
        forall|k: int| c <= k < bounds@.len() ==> #[trigger] bounds@[k] >= offset,
{
    let mut lo: usize = 0;
    let mut hi: usize = bounds.len();
    while lo < hi
        invariant
            lo <= hi <= bounds@.len(),
            increasing(bounds@),
            forall|k: int| 0 <= k < lo ==> #[trigger] bounds@[k] < offset,
            forall|k: int| hi <= k < bounds@.len() ==> #[trigger] bounds@[k] >= offset,
        decreases hi - lo,
    {
        let mid = lo + (hi - lo) / 2;
        if bounds[mid] < offset {
            lo = mid + 1;
        } else {
            hi = mid;
        }
    }
    lo
}

/// The boundaries of a text increase strictly: every character takes at
/// least one byte.
pub proof fn law_boundaries_increase(s: Seq<char>, b: Seq<usize>)
    requires
        b.len() == s.len() + 1,
        forall|k: int| 0 <= k < b.len() ==> #[trigger] b[k] == byte_index(s, k),
    ensures
        increasing(b),
{
    assert forall|i: int, j: int| 0 <= i < j < b.len() implies #[trigger] b[i] < #[trigger] b[j] by {
        lemma_byte_index_mono(s, i, j);
    }
}

/// Character to byte and back: the character offset of the byte offset of
/// character `i` is `i` again.
pub proof fn law_char_byte_round_trip(b: Seq<usize>, i: int, c: int)
    requires
        increasing(b),
        0 <= i < b.len(),
        0 <= c <= b.len(),
        forall|k: int| 0 <= k < c ==> #[trigger] b[k] < b[i],
        forall|k: int| c <= k < b.len() ==> #[trigger] b[k] >= b[i],
    ensures
        c == i,
{
    if c < i {
        assert(b[c] >= b[i]);
        assert(b[c] < b[i]);
    } else if c > i {
        let v = b[i];
        assert(v < b[i]);
    }
}

} // verus!
