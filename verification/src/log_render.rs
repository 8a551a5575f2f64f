//! The layout of one log row: which columns it has, the time shown (or left
//! blank when it repeats), and the path with its links.

use vstd::prelude::*;
use crate::chars::push_char;
use crate::numfmt::{push_signed_decimal, push_spaces, push_str, signed_decimal};

verus! {

/// A style over the characters `start..end` of a text; styles are told
/// apart by `style`.
#[derive(Clone, Copy, PartialEq, Eq, Debug)]
pub struct StyleSpan {
    pub start: usize,
    pub end: usize,
    pub style: u64,
}

/// A rendered time: its characters and its styles.
#[derive(Debug)]
pub struct TimeText {
    pub plain: String,
    pub spans: Vec<StyleSpan>,
}

/// Two times are the same when their characters and styles are.
pub open spec fn same_time(a: TimeText, b: TimeText) -> bool {
    a.plain@ == b.plain@ && a.spans@ == b.spans@
}

/// Whether `display` repeats the last time shown.
pub open spec fn is_repeat(last: Option<TimeText>, display: TimeText) -> bool {
    last matches Some(l) && same_time(l, display)
}

/// A column of the log row's grid.
#[derive(Clone, Copy, PartialEq, Eq, Debug)]
pub enum LogColumn {
    /// The time (style `log.time`).
    Time,
    /// The level, this many columns wide (style `log.level`).
    Level(Option<usize>),
    /// The message: takes the rest, folding long words (style `log.message`).
    Message,
    /// The path (style `log.path`).
    Path,
}

/// The time cell of a row.
#[derive(Debug)]
pub enum TimeCell {
    /// The time as rendered.
    Shown(TimeText),
    /// As many spaces as the repeated time has characters.
    Blank(String),
}

/// A piece of the path cell, linked to `link` when it has one.
#[derive(Debug)]
pub struct PathPiece {
    pub text: String,
    pub link: Option<String>,
}

/// Where a row's time and its format come from.
#[derive(Clone, Copy, PartialEq, Eq, Debug)]
pub struct TimeSources {
    /// Read the console's clock (no time was given with the record).
    pub read_clock: bool,
    /// Use the renderer's own format (none was given, or an empty one).
    pub own_format: bool,
}

/// `LogRender.__call__`'s choice of time and format: the time given, else
/// the console's clock; the format given when it is not empty, else the
/// renderer's own.
pub fn time_sources(time_given: bool, format_given: bool, format_empty: bool) -> (t: TimeSources)
    ensures
        t.read_clock == !time_given,
        t.own_format == (!format_given || format_empty),
{
    TimeSources { read_clock: !time_given, own_format: !format_given || format_empty }
}

/// `rich._log_render.LogRender`: what a log row shows, and the last time
/// shown, to blank a repeat of it.
#[derive(Debug)]
pub struct LogRender {
    pub show_time: bool,
    pub show_level: bool,
    pub show_path: bool,
    pub omit_repeated_times: bool,
    pub level_width: Option<usize>,
    /// The time last shown in full.
    pub last_time: Option<TimeText>,
}

/// The columns of a row: time, level, message, path, each when shown.
pub open spec fn columns_spec(show_time: bool, show_level: bool, level_width: Option<usize>, has_path: bool) -> Seq<LogColumn> {
    (if show_time { seq![LogColumn::Time] } else { Seq::empty() })
        + (if show_level { seq![LogColumn::Level(level_width)] } else { Seq::empty() })
        + seq![LogColumn::Message]
        + (if has_path { seq![LogColumn::Path] } else { Seq::empty() })
}

/// `"file://" + target`.
pub open spec fn file_link(target: Seq<char>) -> Seq<char> {
    seq!['f', 'i', 'l', 'e', ':', '/', '/'] + target
}

/// The pieces of the path cell: the path (linked to the file), then, for a
/// line number other than 0, a colon and the number (linked to the line).
pub open spec fn path_pieces_spec(
    path: Seq<char>,
    line_no: Option<i64>,
    link_path: Option<Seq<char>>,
    pieces: Seq<PathPiece>,
) -> bool {
    let first_ok = pieces.len() >= 1 && pieces[0].text@ == path && match link_path {
        None => pieces[0].link is None,
        Some(l) => pieces[0].link matches Some(k) && k@ == file_link(l),
    };
    match line_no {
        Some(n) if n != 0 => {
            &&& pieces.len() == 3
            &&& first_ok
            &&& pieces[1].text@ == seq![':'] && pieces[1].link is None
            &&& pieces[2].text@ == signed_decimal(n as int)
            &&& match link_path {
                None => pieces[2].link is None,
                Some(l) => pieces[2].link matches Some(k) && k@ == file_link(l) + seq!['#'] + signed_decimal(n as int),
            }
        },
        _ => pieces.len() == 1 && first_ok,
    }
}

fn file_link_text(target: &str) -> (s: String)
    ensures
        s@ == file_link(target@),
{
    let mut s = String::new();
    push_char(&mut s, 'f');
    push_char(&mut s, 'i');
    push_char(&mut s, 'l');
    push_char(&mut s, 'e');
    push_char(&mut s, ':');
    push_char(&mut s, '/');
    push_char(&mut s, '/');
    push_str(&mut s, target);
    s
}

fn copy_spans(v: &Vec<StyleSpan>) -> (r: Vec<StyleSpan>)
    ensures
        r@ == v@,
{
    let mut r: Vec<StyleSpan> = Vec::new();
    let mut i: usize = 0;
    while i < v.len()
        invariant
            i <= v.len(),
            r@ == v@.take(i as int),
        decreases v.len() - i,
    {
        r.push(v[i]);
        i = i + 1;
        assert(r@ == v@.take(i as int));
    }
    assert(v@.take(v.len() as int) == v@);
    r
}

fn same_spans(a: &Vec<StyleSpan>, b: &Vec<StyleSpan>) -> (r: bool)
    ensures
        r == (a@ == b@),
{
    if a.len() != b.len() {
        return false;
    }
    let mut i: usize = 0;
    while i < a.len()
        invariant
            i <= a.len(),
            a.len() == b.len(),
            forall|j: int| 0 <= j < i ==> a@[j] == b@[j],
        decreases a.len() - i,
    {
        let x = a[i];
        let y = b[i];
        if x.start != y.start || x.end != y.end || x.style != y.style {
            return false;
        }
        i = i + 1;
    }
    assert(a@ =~= b@);
    true
}

fn same_plain(a: &String, b: &String) -> (r: bool)
    ensures
        r == (a@ == b@),
{
    let x = crate::chars::chars_of(a.as_str());
    let y = crate::chars::chars_of(b.as_str());
    if x.len() != y.len() {
        return false;
    }
    let mut i: usize = 0;
    while i < x.len()
        invariant
            i <= x.len(),
            x.len() == y.len(),
            x@ == a@,
            y@ == b@,
            forall|j: int| 0 <= j < i ==> x@[j] == y@[j],
        decreases x.len() - i,
    {
        if x[i] != y[i] {
            return false;
        }
        i = i + 1;
    }
    assert(x@ =~= y@);
    true
}

impl LogRender {
    /// A log row layout with nothing shown yet.
    pub fn new(show_time: bool, show_level: bool, show_path: bool, omit_repeated_times: bool, level_width: Option<usize>) -> (r: LogRender)
        ensures
            r.show_time == show_time,
            r.show_level == show_level,
            r.show_path == show_path,
            r.omit_repeated_times == omit_repeated_times,
            r.level_width == level_width,
            r.last_time is None,
    {
        LogRender { show_time, show_level, show_path, omit_repeated_times, level_width, last_time: None }
    }

    /// The time cell for `display`: blank when it repeats the last time
    /// shown and repeats are omitted, else the time, which becomes the last.
    pub fn time_cell(&mut self, display: TimeText) -> (cell: TimeCell)
        ensures
            final(self).show_time == old(self).show_time,
            final(self).show_level == old(self).show_level,
            final(self).show_path == old(self).show_path,
            final(self).omit_repeated_times == old(self).omit_repeated_times,
            final(self).level_width == old(self).level_width,
            final(self).last_time matches Some(l) && same_time(l, display),
            ({
                let repeated = is_repeat(old(self).last_time, display);
                if repeated && old(self).omit_repeated_times {
                    &&& cell matches TimeCell::Blank(s) && s@ == Seq::new(display.plain@.len(), |i: int| ' ')
                    &&& final(self).last_time == old(self).last_time
                } else {
                    &&& cell matches TimeCell::Shown(t) && same_time(t, display)
                    &&& final(self).last_time matches Some(l) && same_time(l, display)
                }
            }),
    {
        let repeated = match &self.last_time {
            Some(last) => same_plain(&last.plain, &display.plain) && same_spans(&last.spans, &display.spans),
            None => false,
        };
        if repeated && self.omit_repeated_times {
            let n = crate::chars::chars_of(display.plain.as_str()).len();
            let mut s = String::new();
            push_spaces(&mut s, n);
            assert(s@ =~= Seq::new(display.plain@.len(), |i: int| ' '));
            TimeCell::Blank(s)
        } else {
            let kept = TimeText { plain: display.plain.clone(), spans: copy_spans(&display.spans) };
            self.last_time = Some(kept);
            TimeCell::Shown(display)
        }
    }

    /// The path shown: the given one, when paths are shown and it is not
    /// empty.
    pub fn shown_path(&self, path: Option<&str>) -> (r: bool)
        ensures
            r == (self.show_path && (path matches Some(p) && p@.len() > 0)),
    {
        match path {
            Some(p) => self.show_path && crate::chars::chars_of(p).len() > 0,
            None => false,
        }
    }

    /// The row's columns, given whether it shows a path.
    pub fn columns(&self, has_path: bool) -> (cols: Vec<LogColumn>)
        ensures
            cols@ == columns_spec(self.show_time, self.show_level, self.level_width, has_path),
    {
        let mut cols: Vec<LogColumn> = Vec::new();
        if self.show_time {
            cols.push(LogColumn::Time);
        }
        if self.show_level {
            cols.push(LogColumn::Level(self.level_width));
        }
        cols.push(LogColumn::Message);
        if has_path {
            cols.push(LogColumn::Path);
        }
        assert(cols@ =~= columns_spec(self.show_time, self.show_level, self.level_width, has_path));
        cols
    }
}

/// The pieces of the path cell (see [`path_pieces_spec`]).
pub fn path_pieces(path: &str, line_no: Option<i64>, link_path: Option<&str>) -> (pieces: Vec<PathPiece>)
    ensures
        path_pieces_spec(path@, line_no, match link_path { None => None, Some(l) => Some(l@) }, pieces@),
{
    let mut pieces: Vec<PathPiece> = Vec::new();
    let mut text = String::new();
    push_str(&mut text, path);
    assert(text@ == path@);
    let link = match link_path {
        None => None,
        Some(l) => Some(file_link_text(l)),
    };
    pieces.push(PathPiece { text, link });
    match line_no {
        Some(n) if n != 0 => {
            let mut colon = String::new();
            push_char(&mut colon, ':');
            assert(colon@ == seq![':']);
            pieces.push(PathPiece { text: colon, link: None });
            let mut digits = String::new();
            push_signed_decimal(&mut digits, n);
            assert(digits@ == signed_decimal(n as int));
            let line_link = match link_path {
                None => None,
                Some(l) => {
                    let mut k = file_link_text(l);
                    push_char(&mut k, '#');
                    push_signed_decimal(&mut k, n);
                    assert(k@ == file_link(l@) + seq!['#'] + signed_decimal(n as int));
                    Some(k)
                },
            };
            pieces.push(PathPiece { text: digits, link: line_link });
        },
        _ => {},
    }
    pieces
}

/// Whatever a row shows of a time, that time is the last one afterwards, so
/// the same time logged again is a repeat (and is blanked exactly when
/// repeats are omitted).
pub proof fn law_same_time_again_repeats(after: Option<TimeText>, display: TimeText, again: TimeText)
    requires
        after matches Some(l) && same_time(l, display),
        same_time(display, again),
    ensures
        is_repeat(after, again),
{
}

} // verus!
