//! The full-screen view and the pager: the shape of a screen's frame, the
//! alternate-screen context, and what a pager shows of captured output.

use vstd::prelude::*;
use crate::chars::push_char;

verus! {

/// The escape character.
pub open spec fn esc() -> char {
    '\x1b'
}

/// A CSI final character (`@` to `~`).
pub open spec fn is_final(c: char) -> bool {
    '\x40' <= c <= '\x7e'
}

/// The first position from `j` on that holds a CSI final character.
pub open spec fn final_pos(s: Seq<char>, j: int) -> Option<int>
    decreases s.len() - j,
{
    if j < 0 || j >= s.len() {
        None
    } else if is_final(s[j]) {
        Some(j)
    } else {
        final_pos(s, j + 1)
    }
}

/// The first position from `k` on where the string terminator `ESC \` starts.
pub open spec fn terminator_pos(s: Seq<char>, k: int) -> Option<int>
    decreases s.len() - k,
{
    if k < 0 || k + 1 >= s.len() {
        None
    } else if s[k] == esc() && s[k + 1] == '\\' {
        Some(k)
    } else {
        terminator_pos(s, k + 1)
    }
}

/// An SGR sequence (`ESC [ ... m`) starts at `i` and its `m` is at `j`.
pub open spec fn sgr_end(s: Seq<char>, i: int) -> Option<int> {
    if 0 <= i && i + 1 < s.len() && s[i] == esc() && s[i + 1] == '[' {
        match final_pos(s, i + 2) {
            Some(j) => if s[j] == 'm' { Some(j) } else { None },
            None => None,
        }
    } else {
        None
    }
}

/// A hyperlink sequence (`ESC ] 8 ; ...`) starts at `i`, and the terminator
/// after it starts at the result.
pub open spec fn link_end(s: Seq<char>, i: int) -> Option<int> {
    if 0 <= i && i + 3 < s.len() && s[i] == esc() && s[i + 1] == ']' && s[i + 2] == '8' && s[i + 3] == ';' {
        terminator_pos(s, i)
    } else {
        None
    }
}

/// `s` from position `i` on with SGR sequences removed (unless `styles`)
/// and hyperlink sequences removed (unless `styles` and `links`); any other
/// escape character stays.
pub open spec fn stripped_from(s: Seq<char>, styles: bool, links: bool, i: int) -> Seq<char>
    decreases s.len() - i,
{
    if i < 0 || i >= s.len() {
        Seq::empty()
    } else if s[i] != esc() {
        seq![s[i]] + stripped_from(s, styles, links, i + 1)
    } else if !styles && sgr_end(s, i) is Some {
        let j = sgr_end(s, i)->0;
        if i < j + 1 <= s.len() { stripped_from(s, styles, links, j + 1) } else { Seq::empty() }
    } else if (!styles || !links) && link_end(s, i) is Some {
        let k = link_end(s, i)->0;
        if i < k + 2 <= s.len() { stripped_from(s, styles, links, k + 2) } else { Seq::empty() }
    } else {
        seq![esc()] + stripped_from(s, styles, links, i + 1)
    }
}

proof fn lemma_final_pos(s: Seq<char>, j: int)
    requires
        0 <= j,
    ensures
        final_pos(s, j) matches Some(p) ==> j <= p < s.len() && is_final(s[p]),
    decreases s.len() - j,
{
    if j < s.len() && !is_final(s[j]) {
        lemma_final_pos(s, j + 1);
    }
}

proof fn lemma_terminator_pos(s: Seq<char>, k: int)
    requires
        0 <= k,
    ensures
        terminator_pos(s, k) matches Some(p) ==> k <= p && p + 1 < s.len(),
    decreases s.len() - k,
{
    if k + 1 < s.len() && !(s[k] == esc() && s[k + 1] == '\\') {
        lemma_terminator_pos(s, k + 1);
    }
}

fn find_final(cs: &Vec<char>, from: usize) -> (r: Option<usize>)
    ensures
        match r {
            None => final_pos(cs@, from as int) is None,
            Some(p) => final_pos(cs@, from as int) == Some(p as int),
        },
    decreases cs.len() - from,
{
    if from >= cs.len() {
        None
    } else if '\x40' <= cs[from] && cs[from] <= '\x7e' {
        Some(from)
    } else {
        find_final(cs, from + 1)
    }
}

fn find_terminator(cs: &Vec<char>, from: usize) -> (r: Option<usize>)
    ensures
        match r {
            None => terminator_pos(cs@, from as int) is None,
            Some(p) => terminator_pos(cs@, from as int) == Some(p as int),
        },
    decreases cs.len() - from,
{
    if from >= cs.len() || from + 1 >= cs.len() {
        None
    } else if cs[from] == '\x1b' && cs[from + 1] == '\\' {
        Some(from)
    } else {
        find_terminator(cs, from + 1)
    }
}

/// What a pager shows of captured output: SGR sequences removed unless
/// `styles`, hyperlink sequences removed unless `styles` and `links`.
pub fn strip_codes(content: &str, styles: bool, links: bool) -> (out: String)
    ensures
        out@ == stripped_from(content@, styles, links, 0),
{
    let cs = crate::chars::chars_of(content);
    let ghost s = cs@;
    let mut out = String::new();
    let mut i: usize = 0;
    while i < cs.len()
        invariant
            i <= cs.len(),
            s == cs@,
            out@ + stripped_from(s, styles, links, i as int) == stripped_from(s, styles, links, 0),
        decreases cs.len() - i,
    {
        let c = cs[i];
        let ghost out0 = out@;
        if c != '\x1b' {
            push_char(&mut out, c);
            proof {
                assert(stripped_from(s, styles, links, i as int) == seq![c] + stripped_from(s, styles, links, i + 1));
                assert(out@ + stripped_from(s, styles, links, i + 1) =~= out0 + stripped_from(s, styles, links, i as int));
            }
            i = i + 1;
            continue;
        }
        if !styles && cs.len() - i > 1 && cs[i + 1] == '[' {
            let end = find_final(&cs, i + 2);
            proof {
                lemma_final_pos(s, i + 2);
            }
            match end {
                Some(j) => {
                    if cs[j] == 'm' {
                        proof {
                            assert(sgr_end(s, i as int) == Some(j as int));
                            assert(stripped_from(s, styles, links, i as int) == stripped_from(s, styles, links, j + 1));
                        }
                        i = j + 1;
                        continue;
                    }
                },
                None => {},
            }
        }
        if (!styles || !links) && cs.len() - i > 3 && cs[i + 1] == ']' && cs[i + 2] == '8' && cs[i + 3] == ';' {
            let end = find_terminator(&cs, i);
            proof {
                lemma_terminator_pos(s, i as int);
            }
            match end {
                Some(k) => {
                    proof {
                        assert(link_end(s, i as int) == Some(k as int));
                        assert(stripped_from(s, styles, links, i as int) == stripped_from(s, styles, links, k + 2));
                    }
                    i = k + 2;
                    continue;
                },
                None => {},
            }
        }
        push_char(&mut out, '\x1b');
        proof {
            assert(stripped_from(s, styles, links, i as int) == seq![esc()] + stripped_from(s, styles, links, i + 1));
            assert(out@ + stripped_from(s, styles, links, i + 1) =~= out0 + stripped_from(s, styles, links, i as int));
        }
        i = i + 1;
    }
    out
}

/// With styles and links kept, a pager shows the output as captured.
pub proof fn law_strip_keeps_all(s: Seq<char>, i: int)
    requires
        0 <= i <= s.len(),
    ensures
        stripped_from(s, true, true, i) == s.subrange(i, s.len() as int),
    decreases s.len() - i,
{
    if i < s.len() {
        law_strip_keeps_all(s, i + 1);
        assert(s.subrange(i, s.len() as int) =~= seq![s[i]] + s.subrange(i + 1, s.len() as int));
    } else {
        assert(s.subrange(i, s.len() as int) =~= Seq::<char>::empty());
    }
}

/// Stripping never adds characters.
pub proof fn law_strip_shrinks(s: Seq<char>, styles: bool, links: bool, i: int)
    requires
        0 <= i <= s.len(),
    ensures
        stripped_from(s, styles, links, i).len() <= s.len() - i,
    decreases s.len() - i,
{
    if i < s.len() {
        if s[i] != esc() {
            law_strip_shrinks(s, styles, links, i + 1);
        } else if !styles && sgr_end(s, i) is Some {
            lemma_final_pos(s, i + 2);
            let j = sgr_end(s, i)->0;
            law_strip_shrinks(s, styles, links, j + 1);
        } else if (!styles || !links) && link_end(s, i) is Some {
            lemma_terminator_pos(s, i);
            let k = link_end(s, i)->0;
            law_strip_shrinks(s, styles, links, k + 2);
        } else {
            law_strip_shrinks(s, styles, links, i + 1);
        }
    }
}

/// `idx` places the characters of `a` in `s` in order, at positions from
/// `from` on: `a` is a subsequence of `s` from there.
pub open spec fn places_in(a: Seq<char>, s: Seq<char>, idx: Seq<int>, from: int) -> bool {
    &&& idx.len() == a.len()
    &&& forall|k: int| 0 <= k < idx.len() ==> from <= #[trigger] idx[k] < s.len() && s[idx[k]] == a[k]
    &&& forall|k1: int, k2: int| 0 <= k1 < k2 < idx.len() ==> #[trigger] idx[k1] < #[trigger] idx[k2]
}

proof fn strip_placement(s: Seq<char>, styles: bool, links: bool, i: int) -> (idx: Seq<int>)
    requires
        0 <= i <= s.len(),
    ensures
        places_in(stripped_from(s, styles, links, i), s, idx, i),
    decreases s.len() - i,
{
    let out = stripped_from(s, styles, links, i);
    if i >= s.len() {
        Seq::empty()
    } else if s[i] != esc() || !((!styles && sgr_end(s, i) is Some) || ((!styles || !links) && link_end(s, i) is Some)) {
        let rest = strip_placement(s, styles, links, i + 1);
        let idx = seq![i] + rest;
        let tail = stripped_from(s, styles, links, i + 1);
        assert(out == seq![s[i]] + tail);
        assert forall|k: int| 0 <= k < idx.len() implies i <= #[trigger] idx[k] < s.len() && s[idx[k]] == out[k] by {
            if k > 0 {
                assert(idx[k] == rest[k - 1]);
                assert(out[k] == tail[k - 1]);
            }
        }
        assert forall|k1: int, k2: int| 0 <= k1 < k2 < idx.len() implies #[trigger] idx[k1] < #[trigger] idx[k2] by {
            assert(idx[k2] == rest[k2 - 1]);
            if k1 > 0 {
                assert(idx[k1] == rest[k1 - 1]);
            }
        }
        idx
    } else if !styles && sgr_end(s, i) is Some {
        lemma_final_pos(s, i + 2);
        let j = sgr_end(s, i)->0;
        let idx = strip_placement(s, styles, links, j + 1);
        assert forall|k: int| 0 <= k < idx.len() implies i <= #[trigger] idx[k] < s.len() && s[idx[k]] == out[k] by {}
        idx
    } else {
        lemma_terminator_pos(s, i);
        let k0 = link_end(s, i)->0;
        let idx = strip_placement(s, styles, links, k0 + 2);
        assert forall|k: int| 0 <= k < idx.len() implies i <= #[trigger] idx[k] < s.len() && s[idx[k]] == out[k] by {}
        idx
    }
}

/// Whatever the flags, what a pager shows is the captured text with some
/// escape sequences deleted: a subsequence of it.
pub proof fn law_strip_is_subsequence(s: Seq<char>, styles: bool, links: bool)
    ensures
        exists|idx: Seq<int>| places_in(stripped_from(s, styles, links, 0), s, idx, 0),
{
    let idx = strip_placement(s, styles, links, 0);
}

/// Text without an escape character comes back unchanged, whatever the
/// flags.
pub proof fn law_strip_plain_unchanged(s: Seq<char>, styles: bool, links: bool, i: int)
    requires
        0 <= i <= s.len(),
        forall|k: int| 0 <= k < s.len() ==> s[k] != esc(),
    ensures
        stripped_from(s, styles, links, i) == s.subrange(i, s.len() as int),
    decreases s.len() - i,
{
    if i < s.len() {
        law_strip_plain_unchanged(s, styles, links, i + 1);
        assert(s.subrange(i, s.len() as int) =~= seq![s[i]] + s.subrange(i + 1, s.len() as int));
    } else {
        assert(s.subrange(i, s.len() as int) =~= Seq::<char>::empty());
    }
}

/// A row of a frame, or the line break between two rows.
#[derive(Clone, Copy, PartialEq, Eq, Debug)]
pub enum FramePiece {
    /// The rendered line at this index, as the frame shows it.
    Line(usize),
    /// A row the frame adds after the rendered lines (a blank row of a
    /// screen, the ellipsis row of a live render).
    Extra,
    /// A line break.
    Break,
}

/// The rows of a frame: the first `kept` rendered lines, then `extra` rows.
pub open spec fn frame_rows(kept: nat, extra: nat) -> Seq<FramePiece> {
    Seq::new(kept, |i: int| FramePiece::Line(i as usize)) + Seq::new(extra, |i: int| FramePiece::Extra)
}

/// `rows` with a line break between each two (none after the last).
pub open spec fn with_breaks(rows: Seq<FramePiece>) -> Seq<FramePiece>
    decreases rows.len(),
{
    if rows.len() <= 1 {
        rows
    } else {
        with_breaks(rows.drop_last()) + seq![FramePiece::Break, rows.last()]
    }
}

/// The pieces of a frame of `kept` rendered lines and `extra` added rows,
/// one line break between each two rows.
pub fn frame_pieces(kept: usize, extra: usize) -> (pieces: Vec<FramePiece>)
    requires
        kept + extra <= usize::MAX,
    ensures
        pieces@ == with_breaks(frame_rows(kept as nat, extra as nat)),
{
    let mut pieces: Vec<FramePiece> = Vec::new();
    let total = kept + extra;
    let mut i: usize = 0;
    let ghost rows = frame_rows(kept as nat, extra as nat);
    while i < total
        invariant
            i <= total == kept + extra,
            rows == frame_rows(kept as nat, extra as nat),
            rows.len() == total,
            pieces@ == with_breaks(rows.take(i as int)),
        decreases total - i,
    {
        let row = if i < kept { FramePiece::Line(i) } else { FramePiece::Extra };
        assert(row == rows[i as int]);
        if i > 0 {
            pieces.push(FramePiece::Break);
        }
        pieces.push(row);
        proof {
            assert(rows.take(i + 1 as int).drop_last() =~= rows.take(i as int));
            if i == 0 {
                assert(rows.take(1) =~= seq![row]);
            }
        }
        i = i + 1;
    }
    assert(rows.take(total as int) =~= rows);
    pieces
}

/// `Screen.__rich_console__`'s frame for `lines` rendered lines on a screen
/// `height` lines high: the first `height` lines, then blank rows up to the
/// height, one line break between rows.
pub fn screen_frame(lines: usize, height: usize) -> (pieces: Vec<FramePiece>)
    ensures
        pieces@ == with_breaks(frame_rows(
            (if lines < height { lines } else { height }) as nat,
            (if lines < height { height - lines } else { 0 }) as nat,
        )),
{
    let kept = if lines < height { lines } else { height };
    let extra = if lines < height { height - lines } else { 0 };
    frame_pieces(kept, extra)
}

/// The line break a screen writes between rows: `"\n\r"` in application
/// mode, else `"\n"`.
pub fn screen_newline(application_mode: bool) -> (s: String)
    ensures
        s@ == (if application_mode { seq!['\n', '\r'] } else { seq!['\n'] }),
{
    let mut s = String::new();
    push_char(&mut s, '\n');
    if application_mode {
        push_char(&mut s, '\r');
    }
    s
}

/// A frame has one row per screen line: a screen `height` lines high shows
/// `height` rows whatever was rendered.
pub proof fn law_screen_fills_height(lines: nat, height: nat)
    ensures
        frame_rows(
            if lines < height { lines } else { height },
            if lines < height { (height - lines) as nat } else { 0 },
        ).len() == height,
{
}

/// What `Console.screen()` does on entering and leaving.
#[derive(Clone, Copy, PartialEq, Eq, Debug)]
pub struct ScreenContextState {
    pub hide_cursor: bool,
    /// The console switched to the alternate screen on entering.
    pub changed: bool,
}

/// What leaving the screen context does.
#[derive(Clone, Copy, PartialEq, Eq, Debug)]
pub struct ScreenExit {
    pub leave_alt_screen: bool,
    pub show_cursor: bool,
}

impl ScreenContextState {
    /// Before entering.
    pub fn new(hide_cursor: bool) -> (s: ScreenContextState)
        ensures
            s.hide_cursor == hide_cursor,
            !s.changed,
    {
        ScreenContextState { hide_cursor, changed: false }
    }

    /// Entering, with whether the console switched to the alternate screen:
    /// whether to hide the cursor now.
    pub fn enter(&mut self, changed: bool) -> (hide: bool)
        ensures
            final(self).changed == changed,
            final(self).hide_cursor == old(self).hide_cursor,
            hide == (changed && old(self).hide_cursor),
    {
        self.changed = changed;
        changed && self.hide_cursor
    }

    /// Leaving: back from the alternate screen, and the cursor shown again,
    /// only when entering switched.
    pub fn exit(&self) -> (e: ScreenExit)
        ensures
            e.leave_alt_screen == self.changed,
            e.show_cursor == (self.changed && self.hide_cursor),
    {
        ScreenExit { leave_alt_screen: self.changed, show_cursor: self.changed && self.hide_cursor }
    }
}

/// The error `Console.screen()` raises for too many positional arguments:
/// `screen() takes at most 2 arguments (N given)`.
pub open spec fn screen_args_message(n: nat) -> Seq<char> {
    seq!['s', 'c', 'r', 'e', 'e', 'n', '(', ')', ' ', 't', 'a', 'k', 'e', 's', ' ', 'a', 't', ' ', 'm', 'o', 's', 't', ' ', '2', ' ', 'a', 'r', 'g', 'u', 'm', 'e', 'n', 't', 's', ' ', '(']
        + crate::numfmt::decimal(n) + seq![' ', 'g', 'i', 'v', 'e', 'n', ')']
}

/// `Console.screen()` takes at most two positional arguments
/// (`hide_cursor`, `style`); more is a `TypeError` with this message.
pub fn check_screen_args(positional: usize) -> (r: Result<(), String>)
    ensures
        positional <= 2 ==> r is Ok,
        positional > 2 ==> (r matches Err(m) && m@ == screen_args_message(positional as nat)),
{
    if positional <= 2 {
        return Ok(());
    }
    let mut m = String::new();
    crate::numfmt::push_str(&mut m, "screen() takes at most 2 arguments (");
    crate::numfmt::push_decimal(&mut m, positional as u64);
    crate::numfmt::push_str(&mut m, " given)");
    proof {
        reveal_strlit("screen() takes at most 2 arguments (");
        reveal_strlit(" given)");
    }
    assert(m@ =~= screen_args_message(positional as nat));
    Err(m)
}

} // verus!
