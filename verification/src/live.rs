//! The live display's decisions: how much of a render fits the screen, the
//! cursor codes that go back over the last render, when a display starts,
//! refreshes and stops and what each step does, and the line buffer of the
//! standard streams while it runs.

use vstd::prelude::*;
use crate::chars::push_char;

verus! {

/// What a render taller than the screen does.
#[derive(Clone, Copy, PartialEq, Eq, Debug)]
pub enum VerticalOverflow {
    /// Cut at the screen's height.
    Crop,
    /// Cut one line short and end with an ellipsis line.
    Ellipsis,
    /// Show everything.
    Visible,
}

/// `"crop"` and `"ellipsis"` name their overflow; any other name shows
/// everything.
pub open spec fn overflow_of(name: Seq<char>) -> VerticalOverflow {
    if name == seq!['c', 'r', 'o', 'p'] {
        VerticalOverflow::Crop
    } else if name == seq!['e', 'l', 'l', 'i', 'p', 's', 'i', 's'] {
        VerticalOverflow::Ellipsis
    } else {
        VerticalOverflow::Visible
    }
}

/// The overflow a `vertical_overflow` name stands for.
pub fn parse_overflow(name: &str) -> (o: VerticalOverflow)
    ensures
        o == overflow_of(name@),
{
    let c = crate::chars::chars_of(name);
    if c.len() == 4 && c[0] == 'c' && c[1] == 'r' && c[2] == 'o' && c[3] == 'p' {
        assert(c@ == seq!['c', 'r', 'o', 'p']);
        VerticalOverflow::Crop
    } else if c.len() == 8 && c[0] == 'e' && c[1] == 'l' && c[2] == 'l' && c[3] == 'i' && c[4] == 'p'
        && c[5] == 's' && c[6] == 'i' && c[7] == 's' {
        assert(c@ == seq!['e', 'l', 'l', 'i', 'p', 's', 'i', 's']);
        VerticalOverflow::Ellipsis
    } else {
        VerticalOverflow::Visible
    }
}

/// How many rendered lines a live render keeps, and whether an ellipsis line
/// follows them.
#[derive(Clone, Copy, PartialEq, Eq, Debug)]
pub struct FitPlan {
    pub keep: usize,
    pub ellipsis: bool,
}

/// `LiveRender.__rich_console__`'s fit of `lines` rendered lines to a
/// screen `height` lines high: all of them when they fit; else the first
/// `height` (crop), all but enough for an ellipsis line (`lines[:height-1]`,
/// which at height 0 drops only the last line), or all (visible).
pub open spec fn fit_spec(lines: nat, height: nat, overflow: VerticalOverflow) -> FitPlan {
    if lines <= height {
        FitPlan { keep: lines as usize, ellipsis: false }
    } else {
        match overflow {
            VerticalOverflow::Crop => FitPlan { keep: height as usize, ellipsis: false },
            VerticalOverflow::Ellipsis => FitPlan {
                keep: (if height == 0 { lines - 1 } else { height - 1 }) as usize,
                ellipsis: true,
            },
            VerticalOverflow::Visible => FitPlan { keep: lines as usize, ellipsis: false },
        }
    }
}

/// The fit of a render to the screen (see [`fit_spec`]).
pub fn fit_lines(lines: usize, height: usize, overflow: VerticalOverflow) -> (p: FitPlan)
    ensures
        p == fit_spec(lines as nat, height as nat, overflow),
        p.keep <= lines,
        p.keep + (if p.ellipsis { 1int } else { 0 }) <= lines,
{
    if lines <= height {
        return FitPlan { keep: lines, ellipsis: false };
    }
    match overflow {
        VerticalOverflow::Crop => FitPlan { keep: height, ellipsis: false },
        VerticalOverflow::Ellipsis => FitPlan { keep: if height == 0 { lines - 1 } else { height - 1 }, ellipsis: true },
        VerticalOverflow::Visible => FitPlan { keep: lines, ellipsis: false },
    }
}

/// The sum of the cell widths of a line's segments.
pub open spec fn line_width(widths: Seq<usize>) -> int
    decreases widths.len(),
{
    if widths.len() == 0 {
        0
    } else {
        line_width(widths.drop_last()) + widths.last()
    }
}

/// The widest of the lines (0 for none).
pub open spec fn widest(lines: Seq<Seq<usize>>) -> int
    decreases lines.len(),
{
    if lines.len() == 0 {
        0
    } else {
        let w = line_width(lines.last());
        let rest = widest(lines.drop_last());
        if w > rest { w } else { rest }
    }
}

proof fn lemma_line_width_prefix(widths: Seq<usize>, i: int)
    requires
        0 <= i < widths.len(),
    ensures
        line_width(widths.take(i + 1)) == line_width(widths.take(i)) + widths[i],
{
    assert(widths.take(i + 1).drop_last() =~= widths.take(i));
}

proof fn lemma_line_width_mono(widths: Seq<usize>, i: int)
    requires
        0 <= i <= widths.len(),
    ensures
        line_width(widths.take(i)) <= line_width(widths),
    decreases widths.len() - i,
{
    if i < widths.len() {
        lemma_line_width_prefix(widths, i);
        lemma_line_width_mono(widths, i + 1);
    } else {
        assert(widths.take(i) =~= widths);
    }
}

fn line_width_of(widths: &Vec<usize>) -> (w: usize)
    requires
        line_width(widths@) <= usize::MAX,
    ensures
        w == line_width(widths@),
{
    let mut w: usize = 0;
    let mut i: usize = 0;
    proof {
        assert(widths@.take(0) =~= Seq::<usize>::empty());
    }
    while i < widths.len()
        invariant
            i <= widths@.len(),
            line_width(widths@) <= usize::MAX,
            w == line_width(widths@.take(i as int)),
        decreases widths.len() - i,
    {
        proof {
            lemma_line_width_prefix(widths@, i as int);
            lemma_line_width_mono(widths@, i as int + 1);
        }
        w = w + widths[i];
        i = i + 1;
    }
    assert(widths@.take(i as int) =~= widths@);
    w
}

/// The shape of rendered lines, given each line's segment cell widths:
/// the widest line's width and the number of lines.
pub fn get_shape(lines: &Vec<Vec<usize>>) -> (shape: (usize, usize))
    requires
        forall|k: int| 0 <= k < lines@.len() ==> line_width(#[trigger] lines@[k]@) <= usize::MAX,
    ensures
        shape.0 == widest(lines@.map_values(|l: Vec<usize>| l@)),
        shape.1 == lines@.len(),
{
    let ghost views = lines@.map_values(|l: Vec<usize>| l@);
    let mut width: usize = 0;
    let mut i: usize = 0;
    proof {
        assert(views.take(0) =~= Seq::<Seq<usize>>::empty());
    }
    while i < lines.len()
        invariant
            i <= lines@.len(),
            views == lines@.map_values(|l: Vec<usize>| l@),
            forall|k: int| 0 <= k < lines@.len() ==> line_width(#[trigger] lines@[k]@) <= usize::MAX,
            width == widest(views.take(i as int)),
        decreases lines.len() - i,
    {
        let w = line_width_of(&lines[i]);
        proof {
            assert(views.take(i as int + 1).drop_last() =~= views.take(i as int));
            assert(views.take(i as int + 1).last() == lines@[i as int]@);
        }
        if w > width {
            width = w;
        }
        i = i + 1;
    }
    assert(views.take(i as int) =~= views);
    (width, lines.len())
}

/// A cursor-control code.
#[derive(Clone, Copy, PartialEq, Eq, Debug)]
pub enum ControlCode {
    CarriageReturn,
    CursorUp(u32),
    EraseInLine(u32),
    Home,
}

/// `k` times: up a line, erase it.
pub open spec fn up_erase(k: nat) -> Seq<ControlCode>
    decreases k,
{
    if k == 0 {
        Seq::empty()
    } else {
        up_erase((k - 1) as nat) + seq![ControlCode::CursorUp(1), ControlCode::EraseInLine(2)]
    }
}

/// The codes that move the cursor to the start of a render `height` lines
/// high, erasing each line: none before any render.
pub open spec fn position_spec(height: Option<usize>) -> Seq<ControlCode> {
    match height {
        None => Seq::empty(),
        Some(h) => seq![ControlCode::CarriageReturn, ControlCode::EraseInLine(2)]
            + up_erase((if h == 0 { 0 } else { h - 1 }) as nat),
    }
}

/// The codes that erase a render `height` lines high and leave the cursor
/// where it began: none before any render.
pub open spec fn restore_spec(height: Option<usize>) -> Seq<ControlCode> {
    match height {
        None => Seq::empty(),
        Some(h) => seq![ControlCode::CarriageReturn] + up_erase(h as nat),
    }
}

fn push_up_erase(codes: &mut Vec<ControlCode>, n: usize)
    ensures
        final(codes)@ == old(codes)@ + up_erase(n as nat),
{
    let ghost start = codes@;
    let mut k: usize = 0;
    while k < n
        invariant
            k <= n,
            codes@ == start + up_erase(k as nat),
        decreases n - k,
    {
        codes.push(ControlCode::CursorUp(1));
        codes.push(ControlCode::EraseInLine(2));
        k = k + 1;
        assert(codes@ =~= start + up_erase(k as nat));
    }
}

/// The state of a `LiveRender`: the height of its last render.
#[derive(Clone, Copy, PartialEq, Eq, Debug)]
pub struct LiveRenderState {
    /// Lines in the last render; none before the first.
    pub height: Option<usize>,
}

impl LiveRenderState {
    /// Before any render.
    pub fn new() -> (s: LiveRenderState)
        ensures
            s.height is None,
    {
        LiveRenderState { height: None }
    }

    /// Render `lines` lines onto a screen `height` lines high: the fit, and
    /// the rendered height remembered.
    pub fn render(&mut self, lines: usize, height: usize, overflow: VerticalOverflow) -> (p: FitPlan)
        ensures
            p == fit_spec(lines as nat, height as nat, overflow),
            final(self).height == Some((p.keep + if p.ellipsis { 1usize } else { 0 }) as usize),
    {
        let p = fit_lines(lines, height, overflow);
        self.height = Some(p.keep + if p.ellipsis { 1 } else { 0 });
        p
    }

    /// `last_render_height`: 0 before any render.
    pub fn last_height(&self) -> (h: usize)
        ensures
            h == match self.height { None => 0usize, Some(h) => h },
    {
        match self.height {
            None => 0,
            Some(h) => h,
        }
    }

    /// `position_cursor()`'s codes.
    pub fn position_codes(&self) -> (codes: Vec<ControlCode>)
        ensures
            codes@ == position_spec(self.height),
    {
        let mut codes: Vec<ControlCode> = Vec::new();
        match self.height {
            None => {},
            Some(h) => {
                codes.push(ControlCode::CarriageReturn);
                codes.push(ControlCode::EraseInLine(2));
                push_up_erase(&mut codes, if h == 0 { 0 } else { h - 1 });
            },
        }
        assert(codes@ =~= position_spec(self.height));
        codes
    }

    /// `restore_cursor()`'s codes.
    pub fn restore_codes(&self) -> (codes: Vec<ControlCode>)
        ensures
            codes@ == restore_spec(self.height),
    {
        let mut codes: Vec<ControlCode> = Vec::new();
        match self.height {
            None => {},
            Some(h) => {
                codes.push(ControlCode::CarriageReturn);
                push_up_erase(&mut codes, h);
            },
        }
        assert(codes@ =~= restore_spec(self.height));
        codes
    }
}

/// The escape sequence of one code.
pub open spec fn code_text(c: ControlCode) -> Seq<char> {
    match c {
        ControlCode::CarriageReturn => seq!['\r'],
        ControlCode::CursorUp(n) => seq!['\x1b', '['] + crate::numfmt::decimal(n as nat) + seq!['A'],
        ControlCode::EraseInLine(n) => seq!['\x1b', '['] + crate::numfmt::decimal(n as nat) + seq!['K'],
        ControlCode::Home => seq!['\x1b', '[', 'H'],
    }
}

/// The escape sequences of `codes`, one after another.
pub open spec fn codes_text(codes: Seq<ControlCode>) -> Seq<char>
    decreases codes.len(),
{
    if codes.len() == 0 {
        Seq::empty()
    } else {
        codes_text(codes.drop_last()) + code_text(codes.last())
    }
}

/// The escape sequences of `codes`, as the terminal receives them.
pub fn control_text(codes: &Vec<ControlCode>) -> (s: String)
    ensures
        s@ == codes_text(codes@),
{
    let mut s = String::new();
    let mut i: usize = 0;
    while i < codes.len()
        invariant
            i <= codes.len(),
            s@ == codes_text(codes@.take(i as int)),
        decreases codes.len() - i,
    {
        let c = codes[i];
        match c {
            ControlCode::CarriageReturn => push_char(&mut s, '\r'),
            ControlCode::CursorUp(n) => {
                push_char(&mut s, '\x1b');
                push_char(&mut s, '[');
                crate::numfmt::push_decimal(&mut s, n as u64);
                push_char(&mut s, 'A');
            },
            ControlCode::EraseInLine(n) => {
                push_char(&mut s, '\x1b');
                push_char(&mut s, '[');
                crate::numfmt::push_decimal(&mut s, n as u64);
                push_char(&mut s, 'K');
            },
            ControlCode::Home => {
                push_char(&mut s, '\x1b');
                push_char(&mut s, '[');
                push_char(&mut s, 'H');
            },
        }
        assert(codes@.take(i + 1 as int).drop_last() == codes@.take(i as int));
        i = i + 1;
        assert(s@ == codes_text(codes@.take(i as int)));
    }
    assert(codes@.take(codes.len() as int) == codes@);
    s
}

/// The state of a `Live` display, as its decisions read it.
#[derive(Clone, Copy, PartialEq, Eq, Debug)]
pub struct LiveState {
    pub started: bool,
    /// Another display was already live on the console: this one only
    /// refreshes the outermost.
    pub nested: bool,
    /// Show on the alternate screen when possible.
    pub screen: bool,
    /// The alternate screen is on for this display.
    pub alt_screen: bool,
    /// Leave nothing behind when stopped.
    pub transient: bool,
    pub auto_refresh: bool,
    /// The display is the console's render hook.
    pub hooked: bool,
    /// A refresh thread runs.
    pub has_thread: bool,
    pub vertical_overflow: VerticalOverflow,
}

/// A step of starting a display, in order.
#[derive(Clone, Copy, PartialEq, Eq, Debug)]
pub enum StartAction {
    HideCursor,
    InstallHook,
    RedirectIo,
    /// The first refresh; its outcome goes to [`LiveState::first_refresh_done`].
    Refresh,
}

/// How a start ends once its first refresh (if any) is over.
#[derive(Clone, Copy, PartialEq, Eq, Debug)]
pub enum StartEnd {
    /// Started; start the refresh thread when asked.
    Done { start_thread: bool },
    /// The first refresh failed: stop the display (see
    /// [`LiveState::stop_first`]), then raise the refresh's error.
    StopThenRaise,
}

/// A step of stopping a display, in order.
#[derive(Clone, Copy, PartialEq, Eq, Debug)]
pub enum StopAction {
    ClearLive,
    /// A nested display prints its renderable once.
    PrintRenderable,
    StopThread,
    Refresh,
    RestoreIo,
    RemoveHook,
    NewLine,
    ShowCursor,
    LeaveAltScreen,
    RestoreCursor,
}

/// What a refresh draws.
#[derive(Clone, Copy, PartialEq, Eq, Debug)]
pub enum RefreshPlan {
    /// A nested display refreshes the outermost one.
    Outermost,
    /// Print the frame.
    Frame,
    /// Nothing: a file or dumb terminal sees only the final frame.
    Skip,
}

/// How the render hook frames what a print prints.
#[derive(Clone, Copy, PartialEq, Eq, Debug)]
pub struct HookPlan {
    /// Codes to print first: home on the alternate screen, else the cursor
    /// back over the display.
    pub reset: Option<ControlCode>,
    pub reset_to_position: bool,
    /// Print the display after the renderables.
    pub render_after: bool,
}

/// A fresh display (`screen` makes it transient too).
pub open spec fn new_live_spec(screen: bool, transient: bool, auto_refresh: bool, overflow: VerticalOverflow) -> LiveState {
    LiveState {
        started: false,
        nested: false,
        screen,
        alt_screen: false,
        transient: screen || transient,
        auto_refresh,
        hooked: false,
        has_thread: false,
        vertical_overflow: overflow,
    }
}

/// The steps a display takes as it starts, once the console took it as its
/// live display (`accepted`), up to its first refresh; none when it is
/// nested in another.
pub open spec fn start_actions_spec(s: LiveState, accepted: bool, refresh: bool) -> Seq<StartAction> {
    if !accepted {
        Seq::empty()
    } else {
        seq![StartAction::HideCursor, StartAction::InstallHook, StartAction::RedirectIo]
            + (if refresh { seq![StartAction::Refresh] } else { Seq::empty() })
    }
}

/// The state once started, up to its first refresh: nested unless
/// accepted; on the alternate screen when asked for and the console
/// switched; hooked.
pub open spec fn started_spec(s: LiveState, accepted: bool, alt_changed: bool) -> LiveState {
    if !accepted {
        LiveState { started: true, nested: true, ..s }
    } else {
        LiveState {
            started: true,
            nested: false,
            alt_screen: s.screen && alt_changed,
            hooked: true,
            ..s
        }
    }
}

/// How a start from state `s` ends after its first refresh went through
/// (`refreshed`) or failed: a failure stops the display before its error goes
/// on, and no thread was started; otherwise a started, outermost display
/// that refreshes itself starts its refresh thread.
pub open spec fn start_end_spec(s: LiveState, refreshed: bool) -> (StartEnd, LiveState) {
    if !refreshed {
        (StartEnd::StopThenRaise, s)
    } else if s.started && !s.nested && s.auto_refresh {
        (StartEnd::Done { start_thread: true }, LiveState { has_thread: true, ..s })
    } else {
        (StartEnd::Done { start_thread: false }, s)
    }
}

/// The first steps of stopping a started display, up to its last refresh.
pub open spec fn stop_first_spec(s: LiveState) -> Seq<StopAction> {
    if !s.started {
        Seq::empty()
    } else if s.nested {
        seq![StopAction::ClearLive] + (if s.transient { Seq::empty() } else { seq![StopAction::PrintRenderable] })
    } else {
        seq![StopAction::ClearLive]
            + (if s.has_thread { seq![StopAction::StopThread] } else { Seq::empty() })
            + (if s.alt_screen { Seq::empty() } else { seq![StopAction::Refresh] })
    }
}

/// The last steps of stopping a display that was not nested, given whether
/// the console is a terminal and the height of the last render.
pub open spec fn stop_rest_spec(s: LiveState, is_terminal: bool, height: nat) -> Seq<StopAction> {
    seq![StopAction::RestoreIo]
        + (if s.hooked { seq![StopAction::RemoveHook] } else { Seq::empty() })
        + (if !s.alt_screen && is_terminal && height > 0 { seq![StopAction::NewLine] } else { Seq::empty() })
        + seq![StopAction::ShowCursor]
        + (if s.alt_screen { seq![StopAction::LeaveAltScreen] } else { Seq::empty() })
        + (if s.transient && !s.alt_screen { seq![StopAction::RestoreCursor] } else { Seq::empty() })
}

/// The state once stopped: a display that was not nested lets go of its
/// thread and hook and shows everything from then on.
pub open spec fn stopped_spec(s: LiveState) -> LiveState {
    if !s.started {
        s
    } else if s.nested {
        LiveState { started: false, ..s }
    } else {
        LiveState {
            started: false,
            has_thread: false,
            vertical_overflow: VerticalOverflow::Visible,
            ..s
        }
    }
}

impl LiveState {
    /// `Live(...)`: not started; `screen` implies transient.
    pub fn new(screen: bool, transient: bool, auto_refresh: bool, overflow: VerticalOverflow) -> (s: LiveState)
        ensures
            s == new_live_spec(screen, transient, auto_refresh, overflow),
    {
        LiveState {
            started: false,
            nested: false,
            screen,
            alt_screen: false,
            transient: screen || transient,
            auto_refresh,
            hooked: false,
            has_thread: false,
            vertical_overflow: overflow,
        }
    }

    /// Whether `start` goes on (the display was not started yet).
    pub fn begins_start(&self) -> (b: bool)
        ensures
            b == !self.started,
    {
        !self.started
    }

    /// Start: `accepted` is the console's answer to taking this display as
    /// its live one, `alt_changed` whether it switched to the alternate
    /// screen when asked (it is asked only when `screen`). The steps go up to
    /// the first refresh; [`LiveState::first_refresh_done`] ends the start.
    /// A display already started does nothing.
    pub fn start(&mut self, accepted: bool, alt_changed: bool, refresh: bool) -> (actions: Vec<StartAction>)
        ensures
            old(self).started ==> actions@.len() == 0 && *final(self) == *old(self),
            !old(self).started ==> *final(self) == started_spec(*old(self), accepted, alt_changed),
            !old(self).started ==> actions@ == start_actions_spec(*old(self), accepted, refresh),
    {
        let mut actions: Vec<StartAction> = Vec::new();
        if self.started {
            return actions;
        }
        self.started = true;
        if !accepted {
            self.nested = true;
            return actions;
        }
        self.nested = false;
        self.alt_screen = self.screen && alt_changed;
        actions.push(StartAction::HideCursor);
        actions.push(StartAction::InstallHook);
        self.hooked = true;
        actions.push(StartAction::RedirectIo);
        if refresh {
            actions.push(StartAction::Refresh);
        }
        assert(actions@ =~= start_actions_spec(*old(self), accepted, refresh));
        actions
    }

    /// The end of a start, once its first refresh went through
    /// (`refreshed`; true when there was none) or failed (see
    /// [`start_end_spec`]).
    pub fn first_refresh_done(&mut self, refreshed: bool) -> (end: StartEnd)
        ensures
            (end, *final(self)) == start_end_spec(*old(self), refreshed),
    {
        if !refreshed {
            return StartEnd::StopThenRaise;
        }
        if self.started && !self.nested && self.auto_refresh {
            self.has_thread = true;
            StartEnd::Done { start_thread: true }
        } else {
            StartEnd::Done { start_thread: false }
        }
    }

    /// The first steps of `stop` (nothing when not started); the state is
    /// then stopped.
    pub fn stop_first(&mut self) -> (actions: Vec<StopAction>)
        ensures
            actions@ == stop_first_spec(*old(self)),
            *final(self) == stopped_spec(*old(self)),
    {
        let mut actions: Vec<StopAction> = Vec::new();
        if !self.started {
            return actions;
        }
        self.started = false;
        actions.push(StopAction::ClearLive);
        if self.nested {
            if !self.transient {
                actions.push(StopAction::PrintRenderable);
            }
            assert(actions@ =~= stop_first_spec(*old(self)));
            return actions;
        }
        if self.has_thread {
            actions.push(StopAction::StopThread);
        }
        self.has_thread = false;
        self.vertical_overflow = VerticalOverflow::Visible;
        if !self.alt_screen {
            actions.push(StopAction::Refresh);
        }
        assert(actions@ =~= stop_first_spec(*old(self)));
        actions
    }

    /// The last steps of `stop` after the last refresh, for a display that
    /// was started and not nested; `hooked` is read before the first steps.
    pub fn stop_rest(&mut self, was_hooked: bool, is_terminal: bool, height: usize) -> (actions: Vec<StopAction>)
        ensures
            actions@ == stop_rest_spec(LiveState { hooked: was_hooked, ..*old(self) }, is_terminal, height as nat),
            *final(self) == (LiveState { hooked: false, ..*old(self) }),
    {
        let mut actions: Vec<StopAction> = Vec::new();
        actions.push(StopAction::RestoreIo);
        if was_hooked {
            actions.push(StopAction::RemoveHook);
        }
        self.hooked = false;
        if !self.alt_screen && is_terminal && height > 0 {
            actions.push(StopAction::NewLine);
        }
        actions.push(StopAction::ShowCursor);
        if self.alt_screen {
            actions.push(StopAction::LeaveAltScreen);
        }
        if self.transient && !self.alt_screen {
            actions.push(StopAction::RestoreCursor);
        }
        assert(actions@ =~= stop_rest_spec(LiveState { hooked: was_hooked, ..*old(self) }, is_terminal, height as nat));
        actions
    }

    /// What `refresh` draws: a nested display defers to the outermost; the
    /// frame is printed on a (non-dumb) terminal, or once, before starting,
    /// for a display that is not transient.
    pub fn refresh_plan(&self, is_terminal: bool, is_dumb: bool) -> (p: RefreshPlan)
        ensures
            p == (if self.nested {
                RefreshPlan::Outermost
            } else if (is_terminal && !is_dumb) || (!self.started && !self.transient) {
                RefreshPlan::Frame
            } else {
                RefreshPlan::Skip
            }),
    {
        if self.nested {
            RefreshPlan::Outermost
        } else if (is_terminal && !is_dumb) || (!self.started && !self.transient) {
            RefreshPlan::Frame
        } else {
            RefreshPlan::Skip
        }
    }

    /// How the render hook frames a print: on an interactive console, the
    /// cursor goes back over the display first and the display is printed
    /// after; elsewhere the display follows only before it starts, when it
    /// is not transient.
    pub fn hook_plan(&self, interactive: bool) -> (p: HookPlan)
        ensures
            interactive ==> p == (HookPlan {
                reset: if self.alt_screen { Some(ControlCode::Home) } else { None },
                reset_to_position: !self.alt_screen,
                render_after: true,
            }),
            !interactive ==> p == (HookPlan {
                reset: None,
                reset_to_position: false,
                render_after: !self.started && !self.transient,
            }),
    {
        if interactive {
            HookPlan {
                reset: if self.alt_screen { Some(ControlCode::Home) } else { None },
                reset_to_position: !self.alt_screen,
                render_after: true,
            }
        } else {
            HookPlan { reset: None, reset_to_position: false, render_after: !self.started && !self.transient }
        }
    }
}

/// Which standard streams a starting display redirects through its line
/// buffer: on a terminal, each one asked for that is not redirected yet.
pub fn redirect_plan(
    is_terminal: bool,
    redirect_stdout: bool,
    stdout_redirected: bool,
    redirect_stderr: bool,
    stderr_redirected: bool,
) -> (r: (bool, bool))
    ensures
        r.0 == (is_terminal && redirect_stdout && !stdout_redirected),
        r.1 == (is_terminal && redirect_stderr && !stderr_redirected),
{
    (is_terminal && redirect_stdout && !stdout_redirected, is_terminal && redirect_stderr && !stderr_redirected)
}

/// Starting twice starts once: the second `start` is not taken (see
/// [`LiveState::begins_start`]), and stopping twice stops once: the second
/// stop takes no step and changes nothing.
pub proof fn law_stop_twice(s: LiveState)
    ensures
        !stopped_spec(s).started,
        stop_first_spec(stopped_spec(s)).len() == 0,
        stopped_spec(stopped_spec(s)) == stopped_spec(s),
{
}

/// A display started and stopped is stopped, with no refresh thread left
/// behind, whether or not it was nested.
pub proof fn law_start_then_stop(s: LiveState, accepted: bool, alt_changed: bool)
    requires
        !s.started,
        !s.hooked,
        !s.has_thread,
    ensures
        ({
            let t = start_end_spec(started_spec(s, accepted, alt_changed), true).1;
            &&& !stopped_spec(t).started
            &&& !stopped_spec(t).has_thread
            &&& stop_first_spec(t)[0] == StopAction::ClearLive
            &&& (t.has_thread ==> stop_first_spec(t).contains(StopAction::StopThread))
        }),
{
    let t = start_end_spec(started_spec(s, accepted, alt_changed), true).1;
    if t.has_thread {
        assert(stop_first_spec(t)[1] == StopAction::StopThread);
    }
}

/// A first refresh that fails stops the display before its error goes on:
/// the start ends by stopping; the stop clears the live display, has no
/// thread to stop (none was started), leaves the display stopped, and then
/// restores the standard streams and pops the render hook.
pub proof fn law_failed_first_refresh_stops(s: LiveState, alt_changed: bool, is_terminal: bool, height: nat)
    requires
        !s.started,
        !s.has_thread,
    ensures
        ({
            let s1 = started_spec(s, true, alt_changed);
            let (end, s2) = start_end_spec(s1, false);
            let first = stop_first_spec(s2);
            let after = stopped_spec(s2);
            let rest = stop_rest_spec(LiveState { hooked: s2.hooked, ..after }, is_terminal, height);
            &&& end == StartEnd::StopThenRaise
            &&& first[0] == StopAction::ClearLive
            &&& !first.contains(StopAction::StopThread)
            &&& !after.started
            &&& !after.has_thread
            &&& rest[0] == StopAction::RestoreIo
            &&& rest[1] == StopAction::RemoveHook
        }),
{
    let s1 = started_spec(s, true, alt_changed);
    let first = stop_first_spec(s1);
    assert forall|i: int| 0 <= i < first.len() implies first[i] != StopAction::StopThread by {
        if s1.alt_screen {
            assert(first =~= seq![StopAction::ClearLive]);
        } else {
            assert(first =~= seq![StopAction::ClearLive, StopAction::Refresh]);
        }
    }
}

/// Off the alternate screen, on a terminal, after a render at least a line
/// high, stopping moves to a new line right before it shows the cursor again,
/// whether or not the display is transient (so restoring the cursor starts
/// from the line below the render).
pub proof fn law_stop_newline_before_cursor(s: LiveState, height: nat)
    requires
        !s.alt_screen,
        height > 0,
    ensures
        ({
            let rest = stop_rest_spec(s, true, height);
            let k: int = if s.hooked { 2 } else { 1 };
            &&& rest[0] == StopAction::RestoreIo
            &&& k + 1 < rest.len()
            &&& rest[k] == StopAction::NewLine
            &&& rest[k + 1] == StopAction::ShowCursor
            &&& (s.transient ==> rest.last() == StopAction::RestoreCursor)
        }),
{
}

/// What the last steps of a stop do, whatever else holds: the streams are
/// restored first, the cursor is shown exactly once, the hook is removed
/// exactly when one was installed, the alternate screen is left exactly when
/// the display is on it, and the cursor goes back over the last render (as
/// the very last step) exactly for a transient display off the alternate
/// screen.
pub proof fn law_stop_rest_steps(s: LiveState, is_terminal: bool, height: nat)
    ensures
        ({
            let rest = stop_rest_spec(s, is_terminal, height);
            &&& rest[0] == StopAction::RestoreIo
            &&& ({
                let p: int = 1 + (if s.hooked { 1int } else { 0 })
                    + (if !s.alt_screen && is_terminal && height > 0 { 1int } else { 0 });
                &&& rest[p] == StopAction::ShowCursor
                &&& forall|i: int| 0 <= i < rest.len() && rest[i] == StopAction::ShowCursor ==> i == p
            })
            &&& rest.contains(StopAction::RemoveHook) == s.hooked
            &&& rest.contains(StopAction::LeaveAltScreen) == s.alt_screen
            &&& (rest.last() == StopAction::RestoreCursor) == (s.transient && !s.alt_screen)
            &&& rest.contains(StopAction::NewLine) == (!s.alt_screen && is_terminal && height > 0)
        }),
{
    let rest = stop_rest_spec(s, is_terminal, height);
    let a = seq![StopAction::RestoreIo];
    let b: Seq<StopAction> = if s.hooked { seq![StopAction::RemoveHook] } else { Seq::empty() };
    let c: Seq<StopAction> = if !s.alt_screen && is_terminal && height > 0 { seq![StopAction::NewLine] } else { Seq::empty() };
    let d = seq![StopAction::ShowCursor];
    let e: Seq<StopAction> = if s.alt_screen { seq![StopAction::LeaveAltScreen] } else { Seq::empty() };
    let f: Seq<StopAction> = if s.transient && !s.alt_screen { seq![StopAction::RestoreCursor] } else { Seq::empty() };
    assert(rest == a + b + c + d + e + f);
    assert forall|i: int| 0 <= i < rest.len() && rest[i] == StopAction::ShowCursor implies
        i == 1 + b.len() + c.len() by {
        if i < 1 + b.len() + c.len() {
            if i == 0 {
            } else if i < 1 + b.len() {
                assert(rest[i] == b[i - 1]);
            } else {
                assert(rest[i] == c[i - 1 - b.len()]);
            }
        } else if i > 1 + b.len() + c.len() {
            if i < 2 + b.len() + c.len() + e.len() {
                assert(rest[i] == e[i - 2 - b.len() - c.len()]);
            } else {
                assert(rest[i] == f[i - 2 - b.len() - c.len() - e.len()]);
            }
        }
    }
    if s.hooked {
        assert(rest[1] == StopAction::RemoveHook);
    }
    if !s.alt_screen && is_terminal && height > 0 {
        assert(rest[b.len() as int + 1] == StopAction::NewLine);
    }
    if s.alt_screen {
        assert(rest[(a.len() + b.len() + c.len() + 1) as int] == StopAction::LeaveAltScreen);
    }
}

/// A transient display that stops leaves nothing behind: off the alternate
/// screen it puts the cursor back over (and erases) its last render.
pub proof fn law_transient_restores(s: LiveState, is_terminal: bool, height: nat)
    requires
        s.transient,
        !s.alt_screen,
    ensures
        stop_rest_spec(s, is_terminal, height).last() == StopAction::RestoreCursor,
{
}

/// The standard streams' line buffer while a display runs: complete lines
/// go out through the console, the rest waits.
#[derive(Debug)]
pub struct LineBuffer {
    pub pending: String,
}

/// `lines`, each followed by a newline, then `rest`.
pub open spec fn rejoin(lines: Seq<Seq<char>>, rest: Seq<char>) -> Seq<char>
    decreases lines.len(),
{
    if lines.len() == 0 {
        rest
    } else {
        lines[0] + seq!['\n'] + rejoin(lines.drop_first(), rest)
    }
}

/// Whether `s` holds no newline.
pub open spec fn no_newline(s: Seq<char>) -> bool {
    forall|i: int| 0 <= i < s.len() ==> s[i] != '\n'
}

proof fn lemma_rejoin_push(lines: Seq<Seq<char>>, line: Seq<char>, rest: Seq<char>)
    ensures
        rejoin(lines.push(line), rest) == rejoin(lines, line + seq!['\n'] + rest),
    decreases lines.len(),
{
    if lines.len() == 0 {
        assert(lines.push(line).drop_first() =~= Seq::<Seq<char>>::empty());
        assert(rejoin(Seq::<Seq<char>>::empty(), rest) == rest);
        assert(rejoin(lines.push(line), rest) == line + seq!['\n'] + rest);
    } else {
        assert(lines.push(line).drop_first() =~= lines.drop_first().push(line));
        lemma_rejoin_push(lines.drop_first(), line, rest);
        assert(lines.push(line)[0] == lines[0]);
        assert(rejoin(lines.push(line), rest) == lines[0] + seq!['\n'] + rejoin(lines.drop_first().push(line), rest));
        assert(lines[0] + seq!['\n'] + (line + seq!['\n'] + rest) == lines[0] + seq!['\n'] + line + seq!['\n'] + rest) by {
            assert((lines[0] + seq!['\n'] + (line + seq!['\n'] + rest)) =~= (lines[0] + seq!['\n'] + line + seq!['\n'] + rest));
        }
    }
}

impl LineBuffer {
    /// An empty buffer.
    pub fn new() -> (b: LineBuffer)
        ensures
            b.pending@.len() == 0,
    {
        LineBuffer { pending: String::new() }
    }

    /// `FileProxy.write(text)`: the complete lines now (what was pending
    /// first), and what follows the last newline stays pending.
    pub fn write(&mut self, text: &str) -> (lines: Vec<String>)
        requires
            no_newline(old(self).pending@),
        ensures
            rejoin(lines@.map_values(|l: String| l@), final(self).pending@) == old(self).pending@ + text@,
            no_newline(final(self).pending@),
            forall|i: int| 0 <= i < lines@.len() ==> no_newline(#[trigger] lines@[i]@),
    {
        let cs = crate::chars::chars_of(text);
        let mut lines: Vec<String> = Vec::new();
        let mut current = String::new();
        let mut i: usize = 0;
        let ghost old_pending = self.pending@;
        let mut pending = String::new();
        std::mem::swap(&mut pending, &mut self.pending);
        assert(pending@ == old_pending);
        // `current` holds the pending text followed by the part of the
        // current line read so far.
        crate::numfmt::push_str(&mut current, pending.as_str());
        assert(current@ == old_pending);
        while i < cs.len()
            invariant
                i <= cs.len(),
                cs@ == text@,
                no_newline(current@),
                forall|k: int| 0 <= k < lines@.len() ==> no_newline(#[trigger] lines@[k]@),
                rejoin(lines@.map_values(|l: String| l@), current@) == old_pending + cs@.take(i as int),
            decreases cs.len() - i,
        {
            let c = cs[i];
            let ghost prev_lines = lines@.map_values(|l: String| l@);
            let ghost prev_current = current@;
            if c == '\n' {
                let mut done = String::new();
                std::mem::swap(&mut done, &mut current);
                lines.push(done);
                proof {
                    assert(lines@.map_values(|l: String| l@) =~= prev_lines.push(prev_current));
                    lemma_rejoin_push(prev_lines, prev_current, current@);
                    assert(prev_current + seq!['\n'] + current@ =~= prev_current.push('\n'));
                    assert(rejoin(prev_lines, prev_current.push('\n')) == rejoin(prev_lines, prev_current) + seq!['\n']) by {
                        lemma_rejoin_append(prev_lines, prev_current, seq!['\n']);
                    }
                }
            } else {
                push_char(&mut current, c);
                proof {
                    lemma_rejoin_append(prev_lines, prev_current, seq![c]);
                    assert(prev_current + seq![c] =~= prev_current.push(c));
                }
            }
            proof {
                assert(cs@.take(i + 1 as int) =~= cs@.take(i as int).push(c));
                assert(old_pending + cs@.take(i + 1 as int) =~= (old_pending + cs@.take(i as int)) + seq![c]);
            }
            i = i + 1;
        }
        assert(cs@.take(cs.len() as int) == cs@);
        self.pending = current;
        lines
    }

    /// `FileProxy.flush()`: what is pending, if anything, to print; the
    /// buffer is then empty.
    pub fn flush(&mut self) -> (out: Option<String>)
        ensures
            final(self).pending@.len() == 0,
            old(self).pending@.len() == 0 ==> out is None,
            old(self).pending@.len() > 0 ==> (out matches Some(s) && s@ == old(self).pending@),
    {
        let mut out = String::new();
        std::mem::swap(&mut out, &mut self.pending);
        if crate::chars::chars_of(out.as_str()).len() == 0 {
            None
        } else {
            Some(out)
        }
    }
}

proof fn lemma_rejoin_append(lines: Seq<Seq<char>>, rest: Seq<char>, more: Seq<char>)
    ensures
        rejoin(lines, rest + more) == rejoin(lines, rest) + more,
    decreases lines.len(),
{
    if lines.len() > 0 {
        lemma_rejoin_append(lines.drop_first(), rest, more);
        assert(lines[0] + seq!['\n'] + (rejoin(lines.drop_first(), rest) + more)
            =~= (lines[0] + seq!['\n'] + rejoin(lines.drop_first(), rest)) + more);
    }
}

/// Lines without newlines, as a sequence of sequences.
pub open spec fn all_single_lines(lines: Seq<Seq<char>>) -> bool {
    forall|i: int| 0 <= i < lines.len() ==> no_newline(#[trigger] lines[i])
}

proof fn lemma_rejoin_concat(a: Seq<Seq<char>>, b: Seq<Seq<char>>, rest: Seq<char>)
    ensures
        rejoin(a, rejoin(b, rest)) == rejoin(a + b, rest),
    decreases a.len(),
{
    if a.len() > 0 {
        lemma_rejoin_concat(a.drop_first(), b, rest);
        assert((a + b).drop_first() =~= a.drop_first() + b);
        assert((a + b)[0] == a[0]);
    } else {
        assert(a + b =~= b);
    }
}

proof fn lemma_rejoin_newline_at(lines: Seq<Seq<char>>, rest: Seq<char>)
    requires
        lines.len() > 0,
    ensures
        rejoin(lines, rest).len() > lines[0].len(),
        rejoin(lines, rest)[lines[0].len() as int] == '\n',
        forall|i: int| 0 <= i < lines[0].len() ==> rejoin(lines, rest)[i] == #[trigger] lines[0][i],
        rejoin(lines, rest).subrange(lines[0].len() as int + 1, rejoin(lines, rest).len() as int)
            == rejoin(lines.drop_first(), rest),
{
    let x = rejoin(lines, rest);
    let a = lines[0];
    assert(x == a + seq!['\n'] + rejoin(lines.drop_first(), rest));
    assert(x.subrange(a.len() as int + 1, x.len() as int) =~= rejoin(lines.drop_first(), rest));
}

/// Text splits into newline-free lines and a newline-free rest in one way
/// only.
pub proof fn law_lines_split_one_way(l1: Seq<Seq<char>>, r1: Seq<char>, l2: Seq<Seq<char>>, r2: Seq<char>)
    requires
        all_single_lines(l1),
        all_single_lines(l2),
        no_newline(r1),
        no_newline(r2),
        rejoin(l1, r1) == rejoin(l2, r2),
    ensures
        l1 == l2,
        r1 == r2,
    decreases l1.len(),
{
    let x = rejoin(l1, r1);
    if l1.len() == 0 && l2.len() == 0 {
    } else if l1.len() == 0 {
        lemma_rejoin_newline_at(l2, r2);
        assert(x[l2[0].len() as int] == '\n');
        assert(r1[l2[0].len() as int] != '\n');
    } else if l2.len() == 0 {
        lemma_rejoin_newline_at(l1, r1);
        assert(r2[l1[0].len() as int] != '\n');
    } else {
        lemma_rejoin_newline_at(l1, r1);
        lemma_rejoin_newline_at(l2, r2);
        let a = l1[0];
        let b = l2[0];
        assert(no_newline(a));
        assert(no_newline(b));
        if a.len() < b.len() {
            assert(x[a.len() as int] == b[a.len() as int]);
        } else if b.len() < a.len() {
            assert(x[b.len() as int] == a[b.len() as int]);
        }
        assert(a =~= b) by {
            assert forall|i: int| 0 <= i < a.len() implies a[i] == b[i] by {
                assert(x[i] == a[i]);
                assert(x[i] == b[i]);
            }
        }
        assert(all_single_lines(l1.drop_first())) by {
            assert forall|i: int| 0 <= i < l1.drop_first().len() implies no_newline(#[trigger] l1.drop_first()[i]) by {
                assert(l1.drop_first()[i] == l1[i + 1]);
            }
        }
        assert(all_single_lines(l2.drop_first())) by {
            assert forall|i: int| 0 <= i < l2.drop_first().len() implies no_newline(#[trigger] l2.drop_first()[i]) by {
                assert(l2.drop_first()[i] == l2[i + 1]);
            }
        }
        law_lines_split_one_way(l1.drop_first(), r1, l2.drop_first(), r2);
        assert(l1 =~= seq![a] + l1.drop_first());
        assert(l2 =~= seq![b] + l2.drop_first());
    }
}

/// Two writes print the same lines as one write of the text joined: with
/// what each write printed (`lines1`, then `lines2`, leaving `pending2`) and
/// what one write of `s + t` printed (`lines`, leaving `pending`), the lines
/// are those of the two writes in order and the same text stays pending.
pub proof fn law_two_writes_as_one(
    pending0: Seq<char>,
    s: Seq<char>,
    t: Seq<char>,
    lines1: Seq<Seq<char>>,
    pending1: Seq<char>,
    lines2: Seq<Seq<char>>,
    pending2: Seq<char>,
    lines: Seq<Seq<char>>,
    pending: Seq<char>,
)
    requires
        all_single_lines(lines1),
        all_single_lines(lines2),
        all_single_lines(lines),
        no_newline(pending1),
        no_newline(pending2),
        no_newline(pending),
        rejoin(lines1, pending1) == pending0 + s,
        rejoin(lines2, pending2) == pending1 + t,
        rejoin(lines, pending) == pending0 + (s + t),
    ensures
        lines == lines1 + lines2,
        pending == pending2,
{
    lemma_rejoin_append(lines1, pending1, t);
    lemma_rejoin_concat(lines1, lines2, pending2);
    assert(pending0 + (s + t) =~= (pending0 + s) + t);
    assert(all_single_lines(lines1 + lines2)) by {
        assert forall|i: int| 0 <= i < (lines1 + lines2).len() implies no_newline(#[trigger] (lines1 + lines2)[i]) by {
            if i < lines1.len() {
                assert((lines1 + lines2)[i] == lines1[i]);
            } else {
                assert((lines1 + lines2)[i] == lines2[i - lines1.len()]);
            }
        }
    }
    law_lines_split_one_way(lines, pending, lines1 + lines2, pending2);
}

} // verus!
