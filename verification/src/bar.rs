//! The progress bar a `BarColumn` draws: what it is drawn from, and how
//! wide it asks to be; and the block characters of a `Bar` of a range.

use vstd::prelude::*;

verus! {

/// What a bar is drawn from.
#[derive(Clone, Copy, PartialEq, Eq, Debug)]
pub struct BarPlan {
    /// The total, at least 0; none draws a pulsing bar.
    pub total: Option<i64>,
    /// The completed count, at least 0.
    pub completed: i64,
    /// The bar's width, at least 1; none takes what the column gives.
    pub width: Option<usize>,
    /// Pulse (the task has not started).
    pub pulse: bool,
}

/// `BarColumn.render`'s bar for a task: its total and completed count
/// (negatives as 0), the column's width (at least 1), pulsing before the
/// task starts.
pub open spec fn bar_spec(total: Option<i64>, completed: i64, bar_width: Option<i64>, started: bool) -> BarPlan {
    BarPlan {
        total: match total {
            None => None,
            Some(t) => Some(if t < 0 { 0 } else { t }),
        },
        completed: if completed < 0 { 0 } else { completed },
        width: match bar_width {
            None => None,
            Some(w) => Some((if w < 1 { 1 } else { w }) as usize),
        },
        pulse: !started,
    }
}

/// `BarColumn.render`'s bar (see [`bar_spec`]).
pub fn bar_plan(total: Option<i64>, completed: i64, bar_width: Option<i64>, started: bool) -> (p: BarPlan)
    requires
        bar_width matches Some(w) ==> w <= usize::MAX,
    ensures
        p == bar_spec(total, completed, bar_width, started),
{
    BarPlan {
        total: match total {
            None => None,
            Some(t) => Some(if t < 0 { 0 } else { t }),
        },
        completed: if completed < 0 { 0 } else { completed },
        width: match bar_width {
            None => None,
            Some(w) => Some((if w < 1 { 1 } else { w }) as usize),
        },
        pulse: !started,
    }
}

/// `ProgressBar.__rich_measure__`: a fixed width is both the least and the
/// most the bar takes; otherwise from 4 columns up to all there are.
pub fn bar_measure(width: Option<usize>, max_width: usize) -> (m: (usize, usize))
    ensures
        m == match width {
            Some(w) => (w, w),
            None => (4usize, max_width),
        },
{
    match width {
        Some(w) => (w, w),
        None => (4, max_width),
    }
}

/// How the core bar is drawn from a `ProgressBar`: its width when set and
/// not 0, pulsing when asked or without a total.
#[derive(Clone, Copy, PartialEq, Eq, Debug)]
pub struct BarDraw {
    pub width: Option<usize>,
    pub pulse: bool,
}

/// `ProgressBar`'s draw settings.
pub fn bar_draw(width: Option<usize>, pulse: bool, has_total: bool) -> (d: BarDraw)
    ensures
        d.width == match width {
            Some(w) => if w > 0 { Some(w) } else { None },
            None => None,
        },
        d.pulse == (pulse || !has_total),
{
    BarDraw {
        width: match width {
            Some(w) => if w > 0 { Some(w) } else { None },
            None => None,
        },
        pulse: pulse || !has_total,
    }
}

/// `n` copies of `c`.
pub open spec fn repeat(c: char, n: nat) -> Seq<char> {
    Seq::new(n, |i: int| c)
}

/// The block that begins a bar `k` eighths into a cell (`k` from 1 to 7).
pub open spec fn begin_block(k: nat) -> char {
    if k <= 2 { '█' } else if k <= 5 { '▐' } else { '▕' }
}

/// The block that ends a bar `k` eighths into a cell (`k` from 1 to 7).
pub open spec fn end_block(k: nat) -> char {
    if k == 1 {
        '▏'
    } else if k == 2 {
        '▎'
    } else if k == 3 {
        '▍'
    } else if k == 4 {
        '▌'
    } else if k == 5 {
        '▋'
    } else if k == 6 {
        '▊'
    } else {
        '▉'
    }
}

/// The blank start of a bar beginning `eighths` eighths of a cell in: a
/// space per whole cell, then the partial block.
pub open spec fn bar_prefix(eighths: nat) -> Seq<char> {
    repeat(' ', eighths / 8) + if eighths % 8 != 0 { seq![begin_block(eighths % 8)] } else { Seq::empty() }
}

/// The body of a bar ending `eighths` eighths of a cell in: a full block
/// per whole cell, then the partial block.
pub open spec fn bar_body(eighths: nat) -> Seq<char> {
    repeat('█', eighths / 8) + if eighths % 8 != 0 { seq![end_block(eighths % 8)] } else { Seq::empty() }
}

/// `Bar`'s characters in `width` cells for a range starting `begin` and
/// ending `end` eighths of a cell in (none for an empty range, which is all
/// spaces): the prefix, the body past the prefix's length, then spaces up
/// to the width.
pub open spec fn bar_text_spec(width: nat, range: Option<(usize, usize)>) -> Seq<char> {
    match range {
        None => repeat(' ', width),
        Some((begin, end)) => {
            let prefix = bar_prefix(begin as nat);
            let body = bar_body(end as nat);
            let tail = if prefix.len() <= body.len() { body.subrange(prefix.len() as int, body.len() as int) } else { Seq::empty() };
            let pad = if body.len() < width { (width - body.len()) as nat } else { 0 };
            prefix + tail + repeat(' ', pad)
        },
    }
}

fn push_repeat(v: &mut Vec<char>, c: char, n: usize)
    ensures
        final(v)@ == old(v)@ + repeat(c, n as nat),
{
    let ghost start = v@;
    let mut i: usize = 0;
    while i < n
        invariant
            i <= n,
            v@ == start + repeat(c, i as nat),
        decreases n - i,
    {
        v.push(c);
        i = i + 1;
        assert(v@ =~= start + repeat(c, i as nat));
    }
}

fn begin_char(k: usize) -> (c: char)
    ensures
        c == begin_block(k as nat),
{
    if k <= 2 { '█' } else if k <= 5 { '▐' } else { '▕' }
}

fn end_char(k: usize) -> (c: char)
    ensures
        c == end_block(k as nat),
{
    if k == 1 {
        '▏'
    } else if k == 2 {
        '▎'
    } else if k == 3 {
        '▍'
    } else if k == 4 {
        '▌'
    } else if k == 5 {
        '▋'
    } else if k == 6 {
        '▊'
    } else {
        '▉'
    }
}

/// `Bar`'s characters (see [`bar_text_spec`]); the caller gives the range in
/// eighths of a cell, none when it is empty.
pub fn bar_text(width: usize, range: Option<(usize, usize)>) -> (s: String)
    ensures
        s@ == bar_text_spec(width as nat, range),
{
    let mut out: Vec<char> = Vec::new();
    match range {
        None => {
            push_repeat(&mut out, ' ', width);
            assert(out@ =~= repeat(' ', width as nat));
        },
        Some((begin, end)) => {
            let ghost prefix = bar_prefix(begin as nat);
            let ghost body = bar_body(end as nat);
            let mut pre: Vec<char> = Vec::new();
            push_repeat(&mut pre, ' ', begin / 8);
            if begin % 8 != 0 {
                pre.push(begin_char(begin % 8));
            }
            assert(pre@ =~= prefix);
            let mut body_v: Vec<char> = Vec::new();
            push_repeat(&mut body_v, '█', end / 8);
            if end % 8 != 0 {
                body_v.push(end_char(end % 8));
            }
            assert(body_v@ =~= body);
            let mut i: usize = 0;
            while i < pre.len()
                invariant
                    i <= pre@.len(),
                    out@ == pre@.take(i as int),
                decreases pre.len() - i,
            {
                out.push(pre[i]);
                i = i + 1;
                assert(out@ =~= pre@.take(i as int));
            }
            assert(pre@.take(pre@.len() as int) =~= pre@);
            if pre.len() <= body_v.len() {
                let mut j: usize = pre.len();
                assert(out@ =~= pre@ + body_v@.subrange(pre@.len() as int, j as int));
                while j < body_v.len()
                    invariant
                        pre@.len() <= j <= body_v@.len(),
                        out@ == pre@ + body_v@.subrange(pre@.len() as int, j as int),
                    decreases body_v.len() - j,
                {
                    out.push(body_v[j]);
                    j = j + 1;
                    assert(out@ =~= pre@ + body_v@.subrange(pre@.len() as int, j as int));
                }
            }
            let ghost tail = if prefix.len() <= body.len() { body.subrange(prefix.len() as int, body.len() as int) } else { Seq::empty() };
            assert(out@ =~= prefix + tail);
            let pad: usize = if body_v.len() < width { width - body_v.len() } else { 0 };
            push_repeat(&mut out, ' ', pad);
        },
    }
    crate::chars::string_of(&out)
}

/// A bar never takes fewer characters than its width, and a bar whose body
/// reaches no further than the width takes exactly the width.
pub proof fn law_bar_fills_width(width: nat, range: Option<(usize, usize)>)
    ensures
        bar_text_spec(width, range).len() >= width,
        range matches Some((b, e)) && bar_body(e as nat).len() <= width && bar_prefix(b as nat).len() <= bar_body(e as nat).len()
            ==> bar_text_spec(width, range).len() == width,
{
}

/// The blocks that end a bar are the left one-eighth block (`U+258F`) up to
/// the left seven-eighths block (`U+2589`): ending `k` eighths into a cell
/// shows the block `k` eighths wide, one code point down per eighth, so no
/// two are alike. The blocks that begin one are the full block (`U+2588`)
/// for up to two eighths, the right half block (`U+2590`) for three to five,
/// and the right one-eighth block (`U+2595`) for six or seven.
pub proof fn law_bar_blocks(k: nat)
    requires
        1 <= k <= 7,
    ensures
        end_block(k) as u32 == 0x2590 - k,
        forall|j: nat| 1 <= j <= 7 && j != k ==> end_block(j) != end_block(k),
        begin_block(k) as u32 == (if k <= 2 { 0x2588u32 } else if k <= 5 { 0x2590u32 } else { 0x2595u32 }),
{
    assert forall|j: nat| 1 <= j <= 7 && j != k implies end_block(j) != end_block(k) by {
        assert(end_block(j) as u32 == 0x2590 - j);
    }
}

/// A bar from the start of the cells up to `end` eighths, narrower than its
/// width, is full blocks for each whole cell, then (for a partial cell) the
/// block `end % 8` eighths wide, then spaces up to the width.
pub proof fn law_bar_from_start(width: nat, end: usize)
    requires
        end / 8 < width,
    ensures
        ({
            let t = bar_text_spec(width, Some((0, end)));
            &&& t.len() == width
            &&& forall|i: int| 0 <= i < end / 8 ==> t[i] == '█'
            &&& end % 8 != 0 ==> t[(end / 8) as int] as u32 == 0x2590 - end % 8
            &&& forall|i: int| (end / 8) + (if end % 8 != 0 { 1int } else { 0 }) <= i < width ==> t[i] == ' '
        }),
{
    let t = bar_text_spec(width, Some((0, end)));
    let body = bar_body(end as nat);
    assert(bar_prefix(0) =~= Seq::<char>::empty());
    if end % 8 != 0 {
        law_bar_blocks((end % 8) as nat);
    }
    assert(body.subrange(0, body.len() as int) =~= body);
}

} // verus!
