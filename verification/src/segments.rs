//! Segments of rendered output: newlines split out into segments of their
//! own, and the regions a layout divides its area into.

use vstd::prelude::*;
use crate::chars::push_char;

verus! {

/// A run of text in one style (styles told apart by number), or a control
/// sequence.
#[derive(Debug)]
pub struct Segment {
    pub text: String,
    pub style: Option<u64>,
    pub control: bool,
}

/// A segment as a value: its characters, style and whether it is control.
pub struct SegView {
    pub text: Seq<char>,
    pub style: Option<u64>,
    pub control: bool,
}

/// The view of a segment.
pub open spec fn seg_view(s: Segment) -> SegView {
    SegView { text: s.text@, style: s.style, control: s.control }
}

/// The line segment: a newline, unstyled.
pub open spec fn line_view() -> SegView {
    SegView { text: seq!['\n'], style: None, control: false }
}

/// The segments a styled text becomes once its newlines are split out,
/// after the pending run `cur`: each newline a line segment, each run of
/// other characters between them (when not empty) a segment in `style`.
pub open spec fn runs(s: Seq<char>, cur: Seq<char>, style: Option<u64>) -> Seq<SegView>
    decreases s.len(),
{
    let pending = if cur.len() > 0 {
        seq![SegView { text: cur, style, control: false }]
    } else {
        Seq::empty()
    };
    if s.len() == 0 {
        pending
    } else if s[0] == '\n' {
        pending + seq![line_view()] + runs(s.drop_first(), Seq::empty(), style)
    } else {
        runs(s.drop_first(), cur.push(s[0]), style)
    }
}

/// Whether `s` holds a newline.
pub open spec fn has_newline(s: Seq<char>) -> bool {
    exists|i: int| 0 <= i < s.len() && s[i] == '\n'
}

/// What one segment becomes: itself when it is control, a lone newline or
/// holds no newline; else its runs.
pub open spec fn split_one(s: SegView) -> Seq<SegView> {
    if s.control || s.text == seq!['\n'] || !has_newline(s.text) {
        seq![s]
    } else {
        runs(s.text, Seq::empty(), s.style)
    }
}

/// What a list of segments becomes.
pub open spec fn split_all(segs: Seq<SegView>) -> Seq<SegView>
    decreases segs.len(),
{
    if segs.len() == 0 {
        Seq::empty()
    } else {
        split_all(segs.drop_last()) + split_one(segs.last())
    }
}

/// The text of a list of segments, one after another.
pub open spec fn all_text(segs: Seq<SegView>) -> Seq<char>
    decreases segs.len(),
{
    if segs.len() == 0 {
        Seq::empty()
    } else {
        all_text(segs.drop_last()) + segs.last().text
    }
}

fn copy_segment(s: &Segment) -> (r: Segment)
    ensures
        seg_view(r) == seg_view(*s),
{
    Segment { text: s.text.clone(), style: s.style, control: s.control }
}

fn new_run(cur: &Vec<char>, style: Option<u64>) -> (r: Segment)
    ensures
        seg_view(r) == (SegView { text: cur@, style, control: false }),
{
    Segment { text: crate::chars::string_of(cur), style, control: false }
}

fn line_segment() -> (r: Segment)
    ensures
        seg_view(r) == line_view(),
{
    let mut text = String::new();
    push_char(&mut text, '\n');
    Segment { text, style: None, control: false }
}

proof fn lemma_all_text_push(segs: Seq<SegView>, s: SegView)
    ensures
        all_text(segs.push(s)) == all_text(segs) + s.text,
{
    assert(segs.push(s).drop_last() =~= segs);
}

proof fn lemma_all_text_concat(a: Seq<SegView>, b: Seq<SegView>)
    ensures
        all_text(a + b) == all_text(a) + all_text(b),
    decreases b.len(),
{
    if b.len() == 0 {
        assert(a + b =~= a);
    } else {
        lemma_all_text_concat(a, b.drop_last());
        assert((a + b).drop_last() =~= a + b.drop_last());
        assert(all_text(a) + all_text(b.drop_last()) + b.last().text =~= all_text(a) + (all_text(b.drop_last()) + b.last().text));
    }
}

/// Splitting out newlines keeps the text: the runs after `cur` hold `cur`
/// and then the text, in order.
pub proof fn law_runs_keep_text(s: Seq<char>, cur: Seq<char>, style: Option<u64>)
    ensures
        all_text(runs(s, cur, style)) == cur + s,
    decreases s.len(),
{
    let pending = if cur.len() > 0 {
        seq![SegView { text: cur, style, control: false }]
    } else {
        Seq::<SegView>::empty()
    };
    assert(all_text(pending) == cur) by {
        if cur.len() > 0 {
            lemma_all_text_push(Seq::empty(), SegView { text: cur, style, control: false });
            assert(Seq::<SegView>::empty().push(SegView { text: cur, style, control: false }) =~= pending);
            assert(all_text(Seq::<SegView>::empty()) == Seq::<char>::empty());
            assert(Seq::<char>::empty() + cur =~= cur);
        } else {
            assert(cur =~= Seq::<char>::empty());
        }
    }
    if s.len() == 0 {
        assert(cur + s =~= cur);
    } else if s[0] == '\n' {
        law_runs_keep_text(s.drop_first(), Seq::empty(), style);
        lemma_all_text_concat(pending + seq![line_view()], runs(s.drop_first(), Seq::empty(), style));
        lemma_all_text_push(pending, line_view());
        assert(pending.push(line_view()) =~= pending + seq![line_view()]);
        assert(cur + seq!['\n'] + (Seq::<char>::empty() + s.drop_first()) =~= cur + s);
    } else {
        law_runs_keep_text(s.drop_first(), cur.push(s[0]), style);
        assert(cur.push(s[0]) + s.drop_first() =~= cur + s);
    }
}

/// `split_newlines`: newlines inside segments split out into line
/// segments of their own (see [`split_one`]).
pub fn split_newlines(segments: &Vec<Segment>) -> (out: Vec<Segment>)
    ensures
        out@.map_values(|s: Segment| seg_view(s)) == split_all(segments@.map_values(|s: Segment| seg_view(s))),
{
    let mut out: Vec<Segment> = Vec::new();
    let ghost input = segments@.map_values(|s: Segment| seg_view(s));
    let mut i: usize = 0;
    while i < segments.len()
        invariant
            i <= segments@.len(),
            input == segments@.map_values(|s: Segment| seg_view(s)),
            out@.map_values(|s: Segment| seg_view(s)) == split_all(input.take(i as int)),
        decreases segments@.len() - i,
    {
        let seg = &segments[i];
        let ghost before = out@.map_values(|s: Segment| seg_view(s));
        let cs = crate::chars::chars_of(seg.text.as_str());
        let mut has_nl = false;
        let mut k: usize = 0;
        while k < cs.len()
            invariant
                k <= cs.len(),
                has_nl == exists|j: int| 0 <= j < k && cs@[j] == '\n',
            decreases cs.len() - k,
        {
            if cs[k] == '\n' {
                has_nl = true;
            }
            k = k + 1;
        }
        let lone = cs.len() == 1 && cs[0] == '\n';
        proof {
            assert(cs@ == seg.text@);
            if lone {
                assert(cs@ =~= seq!['\n']);
            }
            if cs@ == seq!['\n'] {
                assert(lone);
            }
            assert(has_nl == has_newline(seg.text@));
            assert(input.take(i + 1 as int).drop_last() =~= input.take(i as int));
            assert(input[i as int] == seg_view(*seg));
        }
        if seg.control || lone || !has_nl {
            out.push(copy_segment(seg));
            proof {
                assert(out@.map_values(|s: Segment| seg_view(s)) =~= before + seq![seg_view(*seg)]);
            }
        } else {
            let style = seg.style;
            let mut cur: Vec<char> = Vec::new();
            let mut k: usize = 0;
            proof {
                assert(cs@.subrange(0, cs@.len() as int) =~= cs@);
                assert(cur@ =~= Seq::<char>::empty());
            }
            while k < cs.len()
                invariant
                    k <= cs.len(),
                    before + runs(cs@, Seq::empty(), style)
                        == out@.map_values(|s: Segment| seg_view(s)) + runs(cs@.subrange(k as int, cs@.len() as int), cur@, style),
                decreases cs.len() - k,
            {
                let c = cs[k];
                let ghost tail = cs@.subrange(k as int, cs@.len() as int);
                let ghost prev = out@.map_values(|s: Segment| seg_view(s));
                proof {
                    assert(tail[0] == c);
                    assert(tail.drop_first() =~= cs@.subrange(k + 1, cs@.len() as int));
                }
                if c == '\n' {
                    let ghost cur0 = cur@;
                    let had = cur.len() > 0;
                    if had {
                        out.push(new_run(&cur, style));
                    }
                    out.push(line_segment());
                    cur = Vec::new();
                    proof {
                        let pending = if cur0.len() > 0 {
                            seq![SegView { text: cur0, style, control: false }]
                        } else {
                            Seq::<SegView>::empty()
                        };
                        assert(out@.map_values(|s: Segment| seg_view(s)) =~= prev + pending + seq![line_view()]);
                        assert(runs(tail, cur0, style) == pending + seq![line_view()] + runs(tail.drop_first(), Seq::empty(), style));
                        assert(cur@ =~= Seq::<char>::empty());
                        assert(prev + runs(tail, cur0, style)
                            =~= (prev + pending + seq![line_view()]) + runs(tail.drop_first(), Seq::empty(), style));
                    }
                } else {
                    let ghost cur0 = cur@;
                    cur.push(c);
                    proof {
                        assert(runs(tail, cur0, style) == runs(tail.drop_first(), cur0.push(c), style));
                    }
                }
                k = k + 1;
            }
            let ghost mid = out@.map_values(|s: Segment| seg_view(s));
            let ghost cur_end = cur@;
            proof {
                assert(cs@.subrange(cs@.len() as int, cs@.len() as int) =~= Seq::<char>::empty());
            }
            if cur.len() > 0 {
                out.push(new_run(&cur, style));
                proof {
                    assert(out@.map_values(|s: Segment| seg_view(s)) =~= mid + seq![SegView { text: cur_end, style, control: false }]);
                }
            } else {
                proof {
                    assert(runs(Seq::<char>::empty(), cur_end, style) =~= Seq::<SegView>::empty());
                    assert(mid + Seq::<SegView>::empty() =~= mid);
                }
            }
            proof {
                assert(split_one(seg_view(*seg)) == runs(cs@, Seq::empty(), style));
            }
        }
        i = i + 1;
    }
    proof {
        assert(input.take(segments@.len() as int) =~= input);
    }
    out
}

/// A render in the terminal's convention, from one whose last line ends in
/// a newline: newlines split out, the final newline dropped; a render that
/// was only a newline is one empty segment.
pub open spec fn unterminated_spec(segs: Seq<SegView>) -> Seq<SegView> {
    let s = split_all(segs);
    if s.len() == 0 {
        s
    } else {
        let l = s.last();
        if !l.control && l.text.len() > 0 && l.text.last() == '\n' {
            let t = l.text.drop_last();
            let s2 = if t.len() == 0 { s.drop_last() } else { s.drop_last().push(SegView { text: t, ..l }) };
            if s2.len() == 0 {
                seq![SegView { text: Seq::empty(), style: None, control: false }]
            } else {
                s2
            }
        } else {
            s
        }
    }
}

/// `unterminated(segments)` (see [`unterminated_spec`]).
pub fn unterminated(segments: &Vec<Segment>) -> (out: Vec<Segment>)
    ensures
        out@.map_values(|s: Segment| seg_view(s)) == unterminated_spec(segments@.map_values(|s: Segment| seg_view(s))),
{
    let mut out = split_newlines(segments);
    let ghost s = out@.map_values(|x: Segment| seg_view(x));
    let n = out.len();
    if n == 0 {
        return out;
    }
    let last = out.pop().unwrap();
    proof {
        assert(out@.map_values(|x: Segment| seg_view(x)) =~= s.drop_last());
        assert(seg_view(last) == s.last());
    }
    let cs = crate::chars::chars_of(last.text.as_str());
    if !last.control && cs.len() > 0 && cs[cs.len() - 1] == '\n' {
        let mut kept: Vec<char> = Vec::new();
        let mut k: usize = 0;
        while k + 1 < cs.len()
            invariant
                k + 1 <= cs.len(),
                kept@ == cs@.take(k as int),
            decreases cs.len() - k,
        {
            kept.push(cs[k]);
            k = k + 1;
            assert(kept@ =~= cs@.take(k as int));
        }
        proof {
            assert(cs@.take(k as int) =~= cs@.drop_last());
        }
        if kept.len() > 0 {
            out.push(Segment { text: crate::chars::string_of(&kept), style: last.style, control: last.control });
        }
        if out.len() == 0 {
            out.push(Segment { text: String::new(), style: None, control: false });
            proof {
                assert(out@.map_values(|x: Segment| seg_view(x)) =~= seq![SegView { text: Seq::empty(), style: None, control: false }]);
            }
        }
        proof {
            let v = out@.map_values(|x: Segment| seg_view(x));
            assert(v =~= unterminated_spec(segments@.map_values(|x: Segment| seg_view(x))));
        }
        out
    } else {
        out.push(last);
        proof {
            assert(out@.map_values(|x: Segment| seg_view(x)) =~= s);
        }
        out
    }
}

/// `terminated(segments)`: a render that produced anything ends its last
/// line with a newline segment.
pub fn terminated(segments: Vec<Segment>) -> (out: Vec<Segment>)
    ensures
        segments@.len() == 0 ==> out@.len() == 0,
        segments@.len() > 0 ==> out@.map_values(|s: Segment| seg_view(s))
            == segments@.map_values(|s: Segment| seg_view(s)).push(line_view()),
{
    let mut out = segments;
    let ghost before = out@.map_values(|s: Segment| seg_view(s));
    if out.len() > 0 {
        out.push(line_segment());
        proof {
            assert(out@.map_values(|s: Segment| seg_view(s)) =~= before.push(line_view()));
        }
    }
    out
}

/// The first error reported while rendering, kept for the print that
/// raises it.
#[derive(Debug)]
pub struct PendingError<T> {
    pub pending: Option<T>,
}

impl<T> PendingError<T> {
    /// Nothing reported.
    pub fn new() -> (p: PendingError<T>)
        ensures
            p.pending is None,
    {
        PendingError { pending: None }
    }

    /// Report `error`: kept when a print is rendering and none is kept yet
    /// (the first one wins); handed back, to be reported as unraisable,
    /// outside any print.
    pub fn report(&mut self, in_scope: bool, error: T) -> (unraisable: Option<T>)
        ensures
            !in_scope ==> unraisable == Some(error) && final(self).pending == old(self).pending,
            in_scope ==> unraisable is None,
            in_scope && old(self).pending is None ==> final(self).pending == Some(error),
            in_scope && old(self).pending is Some ==> final(self).pending == old(self).pending,
    {
        if !in_scope {
            return Some(error);
        }
        if self.pending.is_none() {
            self.pending = Some(error);
        }
        None
    }

    /// The error kept, if any, which is then cleared.
    pub fn take(&mut self) -> (e: Option<T>)
        ensures
            e == old(self).pending,
            final(self).pending is None,
    {
        let mut e: Option<T> = None;
        std::mem::swap(&mut e, &mut self.pending);
        e
    }
}

} // verus!
