//! The iterator behind `track()`: when it begins, how each step advances the
//! task (through a shared counter when a refresh thread runs, else directly),
//! and that it finishes exactly once.

use vstd::prelude::*;

verus! {

/// How the step before the next value counts the previous one.
#[derive(Clone, Copy, PartialEq, Eq, Debug)]
pub enum Bump {
    /// No value was handed out yet.
    Nothing,
    /// The refresh thread's counter went up by one.
    Counter,
    /// Advance the task by one and refresh the display.
    AdvanceTask,
}

/// What `__next__` does before asking the sequence for a value.
#[derive(Clone, Copy, PartialEq, Eq, Debug)]
pub enum NextStep {
    /// The iterator already finished: stop.
    Exhausted,
    /// Begin first when `begin` (see [`TrackState::begin`]: start an owned
    /// display, add the task, start the thread), then count the previous
    /// value as `bump` says, then take the next value.
    Step { begin: bool, bump: Bump },
}

/// What finishing stops.
#[derive(Clone, Copy, PartialEq, Eq, Debug)]
pub struct FinishPlan {
    /// Stop the refresh thread (which then sets the final count).
    pub stop_thread: bool,
    /// Stop the progress display the iterator owns.
    pub stop_progress: bool,
}

/// One tick of the refresh thread.
#[derive(Clone, Copy, PartialEq, Eq, Debug)]
pub enum Tick {
    /// Leave the loop and set the task's completed count to this, the
    /// counter's final value.
    Stop(i64),
    /// Advance the task by this much.
    Advance(i64),
    /// Nothing new was counted.
    Idle,
}

/// The state of a `track()` iterator.
#[derive(Clone, Copy, PartialEq, Eq, Debug)]
pub struct TrackState {
    /// `track()` made the progress display itself and starts and stops it.
    pub owned: bool,
    pub started: bool,
    pub yielded: bool,
    pub finished: bool,
    /// A refresh thread counts the values.
    pub auto: bool,
    pub has_thread: bool,
    /// Values handed out after the first, for the refresh thread.
    pub counter: i64,
}

/// The step `__next__` takes from state `s`, and the state after it.
pub open spec fn step_spec(s: TrackState) -> (NextStep, TrackState) {
    if s.finished {
        (NextStep::Exhausted, s)
    } else {
        let bump = if !s.yielded {
            Bump::Nothing
        } else if s.auto {
            Bump::Counter
        } else {
            Bump::AdvanceTask
        };
        let counter = if bump == Bump::Counter { s.counter.wrapping_add(1) } else { s.counter };
        (NextStep::Step { begin: !s.started, bump }, TrackState { started: true, counter, ..s })
    }
}

/// What finishing from state `s` stops, and the state after it.
pub open spec fn finish_spec(s: TrackState) -> (Option<FinishPlan>, TrackState) {
    if s.finished {
        (None, s)
    } else {
        (
            Some(FinishPlan { stop_thread: s.has_thread, stop_progress: s.owned && s.started }),
            TrackState { finished: true, has_thread: false, ..s },
        )
    }
}

impl TrackState {
    /// A fresh iterator; `owned` for the module-level `track()`.
    pub fn new(owned: bool) -> (s: TrackState)
        ensures
            s.owned == owned,
            !s.started && !s.yielded && !s.finished && !s.auto && !s.has_thread,
            s.counter == 0,
    {
        TrackState { owned, started: false, yielded: false, finished: false, auto: false, has_thread: false, counter: 0 }
    }

    /// The step `__next__` takes before asking for a value: nothing once
    /// finished; the first call begins; after a value, count it.
    pub fn next_step(&mut self) -> (step: NextStep)
        ensures
            (step, *final(self)) == step_spec(*old(self)),
    {
        if self.finished {
            return NextStep::Exhausted;
        }
        let begin = !self.started;
        self.started = true;
        let bump = if !self.yielded {
            Bump::Nothing
        } else if self.auto {
            self.counter = self.counter.wrapping_add(1);
            Bump::Counter
        } else {
            Bump::AdvanceTask
        };
        NextStep::Step { begin, bump }
    }

    /// `Track.begin`, run by the first step: start an owned display first,
    /// then add the task (or update the given one) with its total, and run a
    /// refresh thread exactly when the display refreshes itself.
    pub fn begin(&mut self, total: Option<i64>, length_hint: i64, has_task: bool, auto_refresh: bool) -> (p: BeginPlan)
        ensures
            (p, *final(self)) == begin_spec(*old(self), total, length_hint, has_task, auto_refresh),
    {
        let total = match total {
            Some(t) => Some(t),
            None => if length_hint != 0 { Some(length_hint) } else { None },
        };
        self.auto = auto_refresh;
        self.has_thread = auto_refresh;
        BeginPlan { start_progress: self.owned, total, add_task: !has_task, spawn_thread: auto_refresh }
    }

    /// A value was handed out.
    pub fn yielded_value(&mut self)
        ensures
            *final(self) == (TrackState { yielded: true, ..*old(self) }),
    {
        self.yielded = true;
    }

    /// Finish: the first call says what to stop, later calls nothing.
    pub fn finish(&mut self) -> (plan: Option<FinishPlan>)
        ensures
            (plan, *final(self)) == finish_spec(*old(self)),
    {
        if self.finished {
            return None;
        }
        self.finished = true;
        let stop_thread = self.has_thread;
        self.has_thread = false;
        Some(FinishPlan { stop_thread, stop_progress: self.owned && self.started })
    }

    /// `close()`: finish a begun iterator; one never begun just ends.
    pub fn close(&mut self) -> (plan: Option<FinishPlan>)
        ensures
            old(self).started ==> (plan, *final(self)) == finish_spec(*old(self)),
            !old(self).started ==> plan is None && *final(self) == (TrackState { finished: true, ..*old(self) }),
    {
        if self.started {
            self.finish()
        } else {
            self.finished = true;
            None
        }
    }

    /// Whether dropping the iterator must still finish it.
    pub fn pending_on_drop(&self) -> (b: bool)
        ensures
            b == (self.started && !self.finished),
    {
        self.started && !self.finished
    }
}

/// One tick of the refresh thread polling `counter`, having advanced the
/// task up to `last`.
pub open spec fn tick_spec(done: bool, display_started: bool, counter: i64, last: i64) -> (Tick, i64) {
    if done || !display_started {
        (Tick::Stop(counter), last)
    } else if counter == last {
        (Tick::Idle, last)
    } else {
        (Tick::Advance(counter.wrapping_sub(last)), counter)
    }
}

/// One tick of the refresh thread: stop when told to or when the display
/// stopped, setting the final count; else advance by what was counted since
/// `last`, remembering it.
pub fn thread_tick(done: bool, display_started: bool, counter: i64, last: &mut i64) -> (t: Tick)
    ensures
        (t, *final(last)) == tick_spec(done, display_started, counter, *old(last)),
{
    if done || !display_started {
        return Tick::Stop(counter);
    }
    if counter != *last {
        let delta = counter.wrapping_sub(*last);
        *last = counter;
        Tick::Advance(delta)
    } else {
        Tick::Idle
    }
}

/// What the refresh thread has advanced the task by after polling the
/// counts `polled` in turn (told neither to stop nor that the display
/// stopped), starting from `last`; and the count it last saw.
pub open spec fn thread_run(polled: Seq<i64>, last: i64) -> (int, i64)
    decreases polled.len(),
{
    if polled.len() == 0 {
        (0, last)
    } else {
        let (sum, seen) = thread_run(polled.drop_last(), last);
        match tick_spec(false, true, polled.last(), seen) {
            (Tick::Advance(d), next) => (sum + d, next),
            (_, next) => (sum, next),
        }
    }
}

/// The refresh thread's advances add up to the last count it polled (from
/// 0, with counts that never go below 0), every advance is by more than
/// nothing, and when it stops it sets the task to the counter's final value.
pub proof fn law_thread_advances_sum(polled: Seq<i64>, final_count: i64)
    requires
        forall|i: int| 0 <= i < polled.len() ==> #[trigger] polled[i] >= 0,
    ensures
        thread_run(polled, 0).0 == (if polled.len() == 0 { 0 } else { polled.last() as int }),
        thread_run(polled, 0).1 == (if polled.len() == 0 { 0 } else { polled.last() }),
        forall|d: i64, l: i64| #[trigger] tick_spec(false, true, d, l).0 != Tick::Advance(0),
        tick_spec(true, true, final_count, 0).0 == Tick::Stop(final_count),
        forall|l: i64| #[trigger] tick_spec(false, false, final_count, l).0 == Tick::Stop(final_count),
    decreases polled.len(),
{
    if polled.len() > 0 {
        let rest = polled.drop_last();
        assert forall|i: int| 0 <= i < rest.len() implies #[trigger] rest[i] >= 0 by {
            assert(rest[i] == polled[i]);
        }
        law_thread_advances_sum(rest, final_count);
        let seen = thread_run(rest, 0).1;
        let c = polled.last();
        assert(seen >= 0);
        assert(c >= 0);
        if c != seen {
            assert(c.wrapping_sub(seen) == c - seen);
        }
    }
    assert forall|d: i64, l: i64| #[trigger] tick_spec(false, true, d, l).0 != Tick::Advance(0) by {
        if d != l {
            assert(d.wrapping_sub(l) != 0);
        }
    }
}

/// Finishing happens once: a second finish stops nothing and changes
/// nothing, and a finished iterator's every later step is the end.
pub proof fn law_finish_once(s: TrackState)
    ensures
        finish_spec(finish_spec(s).1).0 is None,
        finish_spec(finish_spec(s).1).1 == finish_spec(s).1,
        step_spec(finish_spec(s).1).0 == NextStep::Exhausted,
        step_spec(finish_spec(s).1).1 == finish_spec(s).1,
{
}

/// Only the first step begins: the state after any step has started, so
/// no later step begins again.
pub proof fn law_begin_once(s: TrackState)
    ensures
        step_spec(s).0 != NextStep::Exhausted ==> step_spec(s).1.started,
        step_spec(step_spec(s).1).0 != NextStep::Exhausted ==> match step_spec(step_spec(s).1).0 {
            NextStep::Step { begin, bump: _ } => !begin,
            NextStep::Exhausted => true,
        },
{
}

/// A value handed out is counted exactly once, by the step after it: the
/// counter goes up by one when a thread counts, and the task advances by
/// one otherwise.
pub proof fn law_each_value_counted(s: TrackState)
    requires
        !s.finished,
        s.yielded,
    ensures
        s.auto ==> step_spec(s).0 == (NextStep::Step { begin: !s.started, bump: Bump::Counter })
            && step_spec(s).1.counter == s.counter.wrapping_add(1),
        !s.auto ==> step_spec(s).0 == (NextStep::Step { begin: !s.started, bump: Bump::AdvanceTask })
            && step_spec(s).1.counter == s.counter,
{
}

/// How a `track()` iterator begins its task.
#[derive(Clone, Copy, PartialEq, Eq, Debug)]
pub struct BeginPlan {
    /// Start the progress display first (the iterator owns it).
    pub start_progress: bool,
    /// The total to give the task.
    pub total: Option<i64>,
    /// Add a new task (else update the given one).
    pub add_task: bool,
    /// Start the refresh thread that counts the values.
    pub spawn_thread: bool,
}

/// `Track.begin` from state `s`: an owned display is started first; the
/// total is the one given, else the sequence's length hint unless it is 0
/// (no total); a new task unless one was given; a refresh thread exactly
/// when the display refreshes itself, which then counts the values.
pub open spec fn begin_spec(s: TrackState, total: Option<i64>, length_hint: i64, has_task: bool, auto_refresh: bool) -> (BeginPlan, TrackState) {
    (
        BeginPlan {
            start_progress: s.owned,
            total: match total {
                Some(t) => Some(t),
                None => if length_hint != 0 { Some(length_hint) } else { None },
            },
            add_task: !has_task,
            spawn_thread: auto_refresh,
        },
        TrackState { auto: auto_refresh, has_thread: auto_refresh, ..s },
    )
}

/// The first step of a fresh iterator begins it: a display that `track()`
/// owns is started then, before anything else; a refresh thread runs exactly
/// when the display refreshes itself; and finishing later stops that thread
/// and the owned display.
pub proof fn law_first_step_begins(owned: bool, total: Option<i64>, length_hint: i64, has_task: bool, auto_refresh: bool)
    ensures
        ({
            let s0 = TrackState { owned, started: false, yielded: false, finished: false, auto: false, has_thread: false, counter: 0 };
            let (step, s1) = step_spec(s0);
            let (plan, s2) = begin_spec(s1, total, length_hint, has_task, auto_refresh);
            &&& step == (NextStep::Step { begin: true, bump: Bump::Nothing })
            &&& plan.start_progress == owned
            &&& plan.spawn_thread == auto_refresh
            &&& s2.has_thread == auto_refresh
            &&& finish_spec(s2).0 == Some(FinishPlan { stop_thread: auto_refresh, stop_progress: owned })
        }),
{
}

/// The iterator after `n` more values from `s`: each handed out, then
/// counted by the step that follows it; with the number of those steps that
/// advanced the task directly.
pub open spec fn after_values(s: TrackState, n: nat) -> (TrackState, nat)
    decreases n,
{
    if n == 0 {
        (s, 0)
    } else {
        let (before, advanced) = after_values(s, (n - 1) as nat);
        let (step, next) = step_spec(TrackState { yielded: true, ..before });
        (next, advanced + if step == (NextStep::Step { begin: false, bump: Bump::AdvanceTask }) { 1nat } else { 0 })
    }
}

/// Over a whole iteration every value is counted once: after `n` values
/// (the last counted by the step that then finds the sequence exhausted)
/// the task was advanced `n` times directly, or, with a refresh thread, the
/// counter went up by `n` and the task was not advanced directly.
pub proof fn law_iteration_counts_every_value(s: TrackState, n: nat)
    requires
        s.started,
        !s.finished,
        s.auto ==> s.counter + n <= i64::MAX,
        s.counter >= 0,
    ensures
        !after_values(s, n).0.finished,
        after_values(s, n).0.started,
        after_values(s, n).0.auto == s.auto,
        after_values(s, n).1 == (if s.auto { 0 } else { n }),
        after_values(s, n).0.counter == (if s.auto { s.counter + n } else { s.counter as int }),
    decreases n,
{
    if n > 0 {
        law_iteration_counts_every_value(s, (n - 1) as nat);
        let before = after_values(s, (n - 1) as nat).0;
        if s.auto {
            assert(before.counter.wrapping_add(1) == before.counter + 1);
        }
    }
}

} // verus!
