//! The plugin contract's plain data: capabilities and their names, the
//! registrar a plugin registers through, and the check of the spans a
//! code highlighter returns.

use vstd::prelude::*;
use crate::textops::CharSpan;

verus! {

/// What a capability provides.
#[derive(Clone, Copy, PartialEq, Eq, Debug)]
pub enum CapabilityKind {
    Highlighter,
    CodeHighlighter,
    Theme,
    BoxStyle,
    Renderer,
    FenceRenderer,
    Transform,
}

/// One thing a plugin registered; every kind but a highlighter is named.
#[derive(Debug)]
pub struct Capability {
    pub kind: CapabilityKind,
    pub name: Option<String>,
}

/// Why `Capability(kind, name)` was refused.
#[derive(Clone, Copy, PartialEq, Eq, Debug)]
pub enum CapabilityError {
    /// `highlighters are not named`.
    HighlighterNamed,
    /// `a {kind} capability needs a name`.
    NeedsName(CapabilityKind),
    /// `unknown capability kind ...; expected one of ...`.
    UnknownKind,
}

/// The kind a kind's name stands for.
pub open spec fn kind_of(k: Seq<char>) -> Option<CapabilityKind> {
    if k == "highlighter"@ {
        Some(CapabilityKind::Highlighter)
    } else if k == "code_highlighter"@ {
        Some(CapabilityKind::CodeHighlighter)
    } else if k == "theme"@ {
        Some(CapabilityKind::Theme)
    } else if k == "box_style"@ {
        Some(CapabilityKind::BoxStyle)
    } else if k == "renderer"@ {
        Some(CapabilityKind::Renderer)
    } else if k == "fence_renderer"@ {
        Some(CapabilityKind::FenceRenderer)
    } else if k == "transform"@ {
        Some(CapabilityKind::Transform)
    } else {
        None
    }
}

fn same_text(a: &str, b: &str) -> (r: bool)
    ensures
        r == (a@ == b@),
{
    let x = crate::chars::chars_of(a);
    let y = crate::chars::chars_of(b);
    if x.len() != y.len() {
        return false;
    }
    let mut i: usize = 0;
    while i < x.len()
        invariant
            i <= x.len(),
            x.len() == y.len(),
            x@ == a@,
            y@ == b@,
            forall|j: int| 0 <= j < i ==> x@[j] == y@[j],
        decreases x.len() - i,
    {
        if x[i] != y[i] {
            return false;
        }
        i = i + 1;
    }
    assert(x@ =~= y@);
    true
}

/// The kind named `k`, if it is one.
pub fn parse_kind(k: &str) -> (r: Option<CapabilityKind>)
    ensures
        r == kind_of(k@),
{
    if same_text(k, "highlighter") {
        Some(CapabilityKind::Highlighter)
    } else if same_text(k, "code_highlighter") {
        Some(CapabilityKind::CodeHighlighter)
    } else if same_text(k, "theme") {
        Some(CapabilityKind::Theme)
    } else if same_text(k, "box_style") {
        Some(CapabilityKind::BoxStyle)
    } else if same_text(k, "renderer") {
        Some(CapabilityKind::Renderer)
    } else if same_text(k, "fence_renderer") {
        Some(CapabilityKind::FenceRenderer)
    } else if same_text(k, "transform") {
        Some(CapabilityKind::Transform)
    } else {
        None
    }
}

impl Capability {
    /// `Capability(kind, name=None)`: a known kind; a highlighter takes no
    /// name and every other kind needs one.
    pub fn new(kind: &str, name: Option<String>) -> (r: Result<Capability, CapabilityError>)
        ensures
            match kind_of(kind@) {
                None => r == Err::<Capability, CapabilityError>(CapabilityError::UnknownKind),
                Some(CapabilityKind::Highlighter) => if name is Some {
                    r == Err::<Capability, CapabilityError>(CapabilityError::HighlighterNamed)
                } else {
                    r matches Ok(c) && c.kind == CapabilityKind::Highlighter && c.name is None
                },
                Some(k) => if name is None {
                    r == Err::<Capability, CapabilityError>(CapabilityError::NeedsName(k))
                } else {
                    r matches Ok(c) && c.kind == k && c.name == name
                },
            },
    {
        match parse_kind(kind) {
            None => Err(CapabilityError::UnknownKind),
            Some(CapabilityKind::Highlighter) => {
                if name.is_some() {
                    Err(CapabilityError::HighlighterNamed)
                } else {
                    Ok(Capability { kind: CapabilityKind::Highlighter, name: None })
                }
            },
            Some(k) => {
                if name.is_none() {
                    Err(CapabilityError::NeedsName(k))
                } else {
                    Ok(Capability { kind: k, name })
                }
            },
        }
    }
}

/// A character a plugin id or capability name may hold: a lowercase ASCII
/// letter, a digit, `-`, `_` or `.`.
pub open spec fn name_char(c: char) -> bool {
    ('a' <= c <= 'z') || ('0' <= c <= '9') || c == '-' || c == '_' || c == '.'
}

/// A valid plugin id or capability name: 1 to 64 such characters (all
/// ASCII, so as many bytes), the first a letter or digit.
pub open spec fn valid_name(s: Seq<char>) -> bool {
    &&& 1 <= s.len() <= 64
    &&& ('a' <= s[0] <= 'z' || '0' <= s[0] <= '9')
    &&& forall|i: int| 0 <= i < s.len() ==> name_char(#[trigger] s[i])
}

/// `is_valid_name(name)`.
pub fn is_valid_name(name: &str) -> (b: bool)
    ensures
        b == valid_name(name@),
{
    let cs = crate::chars::chars_of(name);
    if cs.len() == 0 || cs.len() > 64 {
        return false;
    }
    let first = cs[0];
    if !(('a' <= first && first <= 'z') || ('0' <= first && first <= '9')) {
        return false;
    }
    let mut i: usize = 0;
    while i < cs.len()
        invariant
            i <= cs.len(),
            cs@ == name@,
            forall|j: int| 0 <= j < i ==> name_char(#[trigger] cs@[j]),
        decreases cs.len() - i,
    {
        let c = cs[i];
        if !(('a' <= c && c <= 'z') || ('0' <= c && c <= '9') || c == '-' || c == '_' || c == '.') {
            assert(!name_char(cs@[i as int]));
            return false;
        }
        i = i + 1;
    }
    true
}

/// What a plugin's `register` registers through: open while `register`
/// runs, closed once it returned.
#[derive(Debug)]
pub struct Registrar<T> {
    collected: Option<Vec<T>>,
}

/// A registration refused: the registrar is closed.
#[derive(Clone, Copy, PartialEq, Eq, Debug)]
pub struct RegistrarClosed;

impl<T> Registrar<T> {
    /// The registrations so far; none once closed.
    pub closed spec fn items(&self) -> Option<Seq<T>> {
        match self.collected {
            None => None,
            Some(v) => Some(v@),
        }
    }

    /// An open registrar with nothing registered.
    pub fn open() -> (r: Registrar<T>)
        ensures
            r.items() == Some(Seq::<T>::empty()),
    {
        Registrar { collected: Some(Vec::new()) }
    }

    /// Register `item`: kept while open, refused once closed.
    pub fn push(&mut self, item: T) -> (r: Result<(), RegistrarClosed>)
        ensures
            old(self).items() is None ==> r is Err && final(self).items() == old(self).items(),
            old(self).items() matches Some(s) ==> r is Ok && final(self).items() == Some(s.push(item)),
    {
        match &mut self.collected {
            Some(v) => {
                v.push(item);
                Ok(())
            },
            None => Err(RegistrarClosed),
        }
    }

    /// Close: what was registered, in order (nothing when already closed).
    pub fn close(&mut self) -> (v: Vec<T>)
        ensures
            final(self).items() is None,
            old(self).items() matches Some(s) ==> v@ == s,
            old(self).items() is None ==> v@.len() == 0,
    {
        let mut taken: Option<Vec<T>> = None;
        std::mem::swap(&mut taken, &mut self.collected);
        match taken {
            Some(v) => v,
            None => Vec::new(),
        }
    }
}

/// A code highlighter's spans for one line of `len` characters, checked as
/// the renderer needs them: a span is kept when it is not empty, starts at
/// or after the end of the last span kept, and ends within the line.
pub open spec fn checked_spans(spans: Seq<CharSpan>, len: nat, end: nat) -> Seq<CharSpan>
    decreases spans.len(),
{
    if spans.len() == 0 {
        Seq::empty()
    } else {
        let s = spans[0];
        if s.start < s.end && s.start >= end && s.end <= len {
            seq![s] + checked_spans(spans.drop_first(), len, s.end as nat)
        } else {
            checked_spans(spans.drop_first(), len, end)
        }
    }
}

/// The spans of one line, checked (see [`checked_spans`]).
pub fn check_line_spans(spans: &Vec<CharSpan>, len: usize) -> (r: Vec<CharSpan>)
    ensures
        r@ == checked_spans(spans@, len as nat, 0),
{
    let mut r: Vec<CharSpan> = Vec::new();
    let mut end: usize = 0;
    let mut i: usize = 0;
    proof {
        assert(spans@.subrange(0, spans@.len() as int) =~= spans@);
        assert(r@ + checked_spans(spans@, len as nat, 0) =~= checked_spans(spans@, len as nat, 0));
    }
    while i < spans.len()
        invariant
            i <= spans@.len(),
            r@ + checked_spans(spans@.subrange(i as int, spans@.len() as int), len as nat, end as nat)
                == checked_spans(spans@, len as nat, 0),
        decreases spans@.len() - i,
    {
        let s = spans[i];
        let ghost rest = spans@.subrange(i as int, spans@.len() as int);
        let ghost e0 = end;
        proof {
            assert(rest[0] == s);
            assert(rest.drop_first() =~= spans@.subrange(i + 1, spans@.len() as int));
        }
        if s.start < s.end && s.start >= end && s.end <= len {
            let ghost before = r@;
            r.push(s);
            end = s.end;
            proof {
                assert(r@ + checked_spans(spans@.subrange(i + 1, spans@.len() as int), len as nat, end as nat)
                    =~= before + checked_spans(rest, len as nat, e0 as nat));
            }
        }
        i = i + 1;
    }
    proof {
        assert(spans@.subrange(spans@.len() as int, spans@.len() as int) =~= Seq::<CharSpan>::empty());
        assert(r@ + Seq::<CharSpan>::empty() =~= r@);
    }
    r
}

/// Spans that are each non-empty and within a line of `len` characters,
/// the first at or after `end`, each after the one before.
pub open spec fn ordered_spans(c: Seq<CharSpan>, len: nat, end: nat) -> bool {
    &&& forall|i: int| 0 <= i < c.len() ==> (#[trigger] c[i]).start < c[i].end && c[i].end <= len
    &&& c.len() > 0 ==> c[0].start >= end
    &&& forall|i: int, j: int| 0 <= i < j < c.len() ==> (#[trigger] c[i]).end <= (#[trigger] c[j]).start
}

/// The checked spans of a line are non-empty, within the line, in order
/// and without overlaps.
pub proof fn law_checked_spans_ordered(spans: Seq<CharSpan>, len: nat, end: nat)
    ensures
        ordered_spans(checked_spans(spans, len, end), len, end),
    decreases spans.len(),
{
    if spans.len() > 0 {
        let s = spans[0];
        if s.start < s.end && s.start >= end && s.end <= len {
            law_checked_spans_ordered(spans.drop_first(), len, s.end as nat);
            let rest = checked_spans(spans.drop_first(), len, s.end as nat);
            let c = seq![s] + rest;
            assert forall|i: int, j: int| 0 <= i < j < c.len() implies (#[trigger] c[i]).end <= (#[trigger] c[j]).start by {
                if i == 0 {
                    assert(c[j] == rest[j - 1]);
                    if j > 1 {
                        assert(rest[0].end <= rest[j - 1].start);
                        assert(rest[0].start < rest[0].end);
                    }
                } else {
                    assert(c[i] == rest[i - 1]);
                    assert(c[j] == rest[j - 1]);
                }
            }
            assert forall|i: int| 0 <= i < c.len() implies (#[trigger] c[i]).start < c[i].end && c[i].end <= len by {
                if i > 0 {
                    assert(c[i] == rest[i - 1]);
                }
            }
        } else {
            law_checked_spans_ordered(spans.drop_first(), len, end);
        }
    }
}

proof fn lemma_ordered_kept(c: Seq<CharSpan>, len: nat, end: nat)
    requires
        ordered_spans(c, len, end),
    ensures
        checked_spans(c, len, end) == c,
    decreases c.len(),
{
    if c.len() > 0 {
        let rest = c.drop_first();
        assert(ordered_spans(rest, len, c[0].end as nat)) by {
            assert forall|i: int| 0 <= i < rest.len() implies (#[trigger] rest[i]).start < rest[i].end && rest[i].end <= len by {
                assert(rest[i] == c[i + 1]);
            }
            if rest.len() > 0 {
                assert(rest[0] == c[1]);
                assert(c[0].end <= c[1].start);
            }
            assert forall|i: int, j: int| 0 <= i < j < rest.len() implies (#[trigger] rest[i]).end <= (#[trigger] rest[j]).start by {
                assert(rest[i] == c[i + 1]);
                assert(rest[j] == c[j + 1]);
            }
        }
        lemma_ordered_kept(rest, len, c[0].end as nat);
        assert(seq![c[0]] + rest =~= c);
    }
}

/// Checking a line's spans twice changes nothing more than checking once.
pub proof fn law_check_idempotent(spans: Seq<CharSpan>, len: nat)
    ensures
        checked_spans(checked_spans(spans, len, 0), len, 0) == checked_spans(spans, len, 0),
{
    law_checked_spans_ordered(spans, len, 0);
    lemma_ordered_kept(checked_spans(spans, len, 0), len, 0);
}

} // verus!
