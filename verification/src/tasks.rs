//! The task table of a progress display: tasks added under increasing ids,
//! looked up, advanced and updated, with a window of recent speed samples.
//!
//! Quantities (`total`, `completed`, an advance) are whole numbers; times are
//! whole ticks of whatever clock the caller reads (the window's period is in
//! the same ticks). A speed is kept as the exact ratio of what was completed
//! over the time it took.

use vstd::prelude::*;

verus! {

/// At most this many speed samples are kept per task.
pub const MAX_SAMPLES: usize = 1000;

/// One speed sample: at `time`, `completed` more steps were done.
#[derive(Clone, Copy, PartialEq, Eq, Debug)]
pub struct Sample {
    pub time: i64,
    pub completed: i128,
}

/// A speed as an exact ratio: `completed` steps in `span` ticks.
#[derive(Clone, Copy, PartialEq, Eq, Debug)]
pub struct Speed {
    pub completed: i128,
    pub span: i128,
}

/// Why an operation on the table was refused.
#[derive(Clone, Copy, PartialEq, Eq, Debug)]
pub enum TaskError {
    /// No task has the id (Python's `KeyError`).
    Missing,
    /// A quantity left the range of an `i64`.
    Overflow,
}

/// One task of the table.
#[derive(Debug)]
pub struct TaskRecord {
    pub id: u64,
    pub total: Option<i64>,
    pub completed: i64,
    pub visible: bool,
    pub start_time: Option<i64>,
    pub stop_time: Option<i64>,
    pub finished_time: Option<i128>,
    pub finished_speed: Option<Speed>,
    pub samples: Vec<Sample>,
}

/// The samples left when those older than `cutoff` are dropped from the
/// front (the oldest first, stopping at the first recent one).
pub open spec fn drop_old(s: Seq<Sample>, cutoff: int) -> Seq<Sample>
    decreases s.len(),
{
    if s.len() > 0 && s[0].time < cutoff {
        drop_old(s.drop_first(), cutoff)
    } else {
        s
    }
}

/// The last `n` samples of `s` (all of them when there are fewer).
pub open spec fn keep_last(s: Seq<Sample>, n: nat) -> Seq<Sample> {
    if s.len() > n {
        s.subrange(s.len() - n, s.len() as int)
    } else {
        s
    }
}

/// The sum of the completed steps of `s`.
pub open spec fn sum_completed(s: Seq<Sample>) -> int
    decreases s.len(),
{
    if s.len() == 0 {
        0
    } else {
        sum_completed(s.drop_last()) + s.last().completed
    }
}

/// The time since `start` (up to `stop` once stopped), if the task started.
pub open spec fn elapsed_spec(start: Option<i64>, stop: Option<i64>, now: i64) -> Option<int> {
    match start {
        None => None,
        Some(s) => match stop {
            Some(t) => Some(t - s),
            None => Some(now - s),
        },
    }
}

/// A started task's speed over its samples: what the samples after the first
/// completed, over the time from the first to the last; none before two
/// samples apart in time.
pub open spec fn speed_spec(start: Option<i64>, s: Seq<Sample>) -> Option<(int, int)> {
    if start is None || s.len() == 0 {
        None
    } else if s.last().time - s[0].time == 0 {
        None
    } else {
        Some((sum_completed(s.drop_first()), s.last().time - s[0].time))
    }
}

/// A sample's completed steps stay within what two `i64` values can differ by.
pub open spec fn sample_in_range(x: Sample) -> bool {
    -0x1_0000_0000_0000_0000 < x.completed < 0x1_0000_0000_0000_0000
}

/// The samples a task may hold: at most [`MAX_SAMPLES`], each in range.
pub open spec fn samples_ok(s: Seq<Sample>) -> bool {
    &&& s.len() <= MAX_SAMPLES
    &&& forall|i: int| 0 <= i < s.len() ==> #[trigger] sample_in_range(s[i])
}

proof fn lemma_drop_old(s: Seq<Sample>, cutoff: int)
    ensures
        drop_old(s, cutoff).len() <= s.len(),
        samples_ok(s) ==> samples_ok(drop_old(s, cutoff)),
        drop_old(s, cutoff).len() > 0 ==> drop_old(s, cutoff)[0].time >= cutoff,
        exists|k: int| 0 <= k <= s.len() && drop_old(s, cutoff) == s.subrange(k, s.len() as int),
    decreases s.len(),
{
    if s.len() > 0 && s[0].time < cutoff {
        lemma_drop_old(s.drop_first(), cutoff);
        let k = choose|k: int| 0 <= k <= s.drop_first().len() && drop_old(s.drop_first(), cutoff)
            == s.drop_first().subrange(k, s.drop_first().len() as int);
        assert(s.drop_first().subrange(k, s.drop_first().len() as int) == s.subrange(k + 1, s.len() as int));
        if samples_ok(s) {
            assert forall|i: int| 0 <= i < s.drop_first().len() implies #[trigger] sample_in_range(s.drop_first()[i]) by {
                assert(s.drop_first()[i] == s[i + 1]);
            }
        }
    } else {
        assert(s == s.subrange(0, s.len() as int));
    }
}

proof fn lemma_sum_step(s: Seq<Sample>, i: int)
    requires
        1 <= i < s.len(),
    ensures
        sum_completed(s.subrange(1, i + 1)) == sum_completed(s.subrange(1, i)) + s[i].completed,
{
    assert(s.subrange(1, i + 1).drop_last() == s.subrange(1, i));
}

/// The sample window after an update at `cutoff`: old samples dropped, then
/// `sample` (if any) added, keeping the last [`MAX_SAMPLES`].
pub open spec fn window_after(s: Seq<Sample>, cutoff: int, sample: Option<Sample>) -> Seq<Sample> {
    match sample {
        None => drop_old(s, cutoff),
        Some(x) => keep_last(drop_old(s, cutoff).push(x), MAX_SAMPLES as nat),
    }
}

/// Whether an update with `total` replaces the task's total (and so starts
/// its progress afresh).
pub open spec fn total_changes(t: TaskRecord, total: Option<i64>) -> bool {
    total is Some && total != t.total
}

/// The completed count an update leaves: `completed` when given, else the
/// old count advanced by `advance`.
pub open spec fn updated_completed(t: TaskRecord, completed: Option<i64>, advance: Option<i64>) -> int {
    match completed {
        Some(c) => c as int,
        None => match advance {
            Some(a) => t.completed + a,
            None => t.completed as int,
        },
    }
}

/// `elapsed_spec` as an `i128` option.
pub open spec fn elapsed_i128(start: Option<i64>, stop: Option<i64>, now: i64) -> Option<i128> {
    match elapsed_spec(start, stop, now) {
        None => None,
        Some(d) => Some(d as i128),
    }
}

/// `speed_spec` as a [`Speed`].
pub open spec fn speed_value(start: Option<i64>, s: Seq<Sample>) -> Option<Speed> {
    match speed_spec(start, s) {
        None => None,
        Some((c, t)) => Some(Speed { completed: c as i128, span: t as i128 }),
    }
}

/// Whether the task with `total` and `completed` just reached its total.
pub open spec fn reaches_total(total: Option<i64>, completed: int, finished: Option<i128>) -> bool {
    total is Some && completed >= total.unwrap() && finished is None
}

/// How `Progress.update` leaves a task `t` as `u`.
pub open spec fn update_spec(
    t: TaskRecord,
    u: TaskRecord,
    total: Option<i64>,
    completed: Option<i64>,
    advance: Option<i64>,
    visible: Option<bool>,
    now: i64,
    period: i64,
) -> bool {
    let changed = total_changes(t, total);
    let new_total = if changed { total } else { t.total };
    let base = if changed { Seq::<Sample>::empty() } else { t.samples@ };
    let ft = if changed { None } else { t.finished_time };
    let fs = if changed { None } else { t.finished_speed };
    let c = updated_completed(t, completed, advance);
    let delta = c - t.completed;
    &&& u.id == t.id
    &&& u.total == new_total
    &&& u.completed == c
    &&& u.visible == (match visible { Some(v) => v, None => t.visible })
    &&& u.start_time == t.start_time
    &&& u.stop_time == t.stop_time
    &&& u.samples@ == window_after(
        base,
        now - period,
        if delta > 0 { Some(Sample { time: now, completed: delta as i128 }) } else { None },
    )
    &&& u.finished_time == (if reaches_total(new_total, c, ft) {
        elapsed_i128(t.start_time, t.stop_time, now)
    } else {
        ft
    })
    &&& u.finished_speed == fs
}

/// How `Progress.advance` by `advance` leaves a task `t` as `u`.
pub open spec fn advance_spec(t: TaskRecord, u: TaskRecord, advance: i64, now: i64, period: i64) -> bool {
    let c = t.completed + advance;
    let window = window_after(t.samples@, now - period, Some(Sample { time: now, completed: advance as i128 }));
    &&& u.id == t.id
    &&& u.total == t.total
    &&& u.completed == c
    &&& u.visible == t.visible
    &&& u.start_time == t.start_time
    &&& u.stop_time == t.stop_time
    &&& u.samples@ == window
    &&& if reaches_total(t.total, c, t.finished_time) {
        &&& u.finished_time == elapsed_i128(t.start_time, t.stop_time, now)
        &&& u.finished_speed == speed_value(t.start_time, window)
    } else {
        &&& u.finished_time == t.finished_time
        &&& u.finished_speed == t.finished_speed
    }
}

/// How `Progress.reset` leaves a task `t` as `u`.
pub open spec fn reset_spec(
    t: TaskRecord,
    u: TaskRecord,
    start: bool,
    total: Option<i64>,
    completed: Option<i64>,
    visible: Option<bool>,
    now: i64,
) -> bool {
    &&& u.id == t.id
    &&& u.total == (if total is Some { total } else { t.total })
    &&& u.completed == (match completed { Some(c) => c, None => 0 })
    &&& u.visible == (match visible { Some(v) => v, None => t.visible })
    &&& u.start_time == (if start { Some(now) } else { None })
    &&& u.stop_time == t.stop_time
    &&& u.samples@.len() == 0
    &&& u.finished_time is None
    &&& u.finished_speed is None
}

/// Drops samples older than `cutoff` from the front of `samples`.
fn drop_old_samples(samples: &mut Vec<Sample>, cutoff: i128)
    requires
        samples_ok(old(samples)@),
    ensures
        final(samples)@ == drop_old(old(samples)@, cutoff as int),
        samples_ok(final(samples)@),
{
    proof {
        lemma_drop_old(old(samples)@, cutoff as int);
    }
    while samples.len() > 0 && (samples[0].time as i128) < cutoff
        invariant
            drop_old(samples@, cutoff as int) == drop_old(old(samples)@, cutoff as int),
        decreases samples@.len(),
    {
        let ghost s = samples@;
        samples.remove(0);
        assert(samples@ =~= s.drop_first());
    }
}

/// Adds `x` at the end of `samples`, keeping the last [`MAX_SAMPLES`].
fn push_sample(samples: &mut Vec<Sample>, x: Sample)
    requires
        samples_ok(old(samples)@),
        sample_in_range(x),
    ensures
        final(samples)@ == keep_last(old(samples)@.push(x), MAX_SAMPLES as nat),
        samples_ok(final(samples)@),
{
    samples.push(x);
    if samples.len() > MAX_SAMPLES {
        let ghost s = samples@;
        samples.remove(0);
        assert(samples@ =~= s.subrange(s.len() - MAX_SAMPLES as int, s.len() as int));
    }
    proof {
        let s = samples@;
        assert forall|i: int| 0 <= i < s.len() implies #[trigger] sample_in_range(s[i]) by {
            if old(samples)@.len() + 1 > MAX_SAMPLES {
                assert(s[i] == old(samples)@.push(x)[i + 1]);
            } else {
                assert(s[i] == old(samples)@.push(x)[i]);
            }
        }
    }
}

/// Whether advancing the task with `id` by `advance` (without an explicit
/// `completed`) leaves the range of an `i64`.
pub open spec fn advance_overflows(tasks: Seq<TaskRecord>, id: u64, completed: Option<i64>, advance: Option<i64>) -> bool {
    exists|i: int|
        0 <= i < tasks.len() && #[trigger] tasks[i].id == id && completed is None && advance is Some
            && !(i64::MIN <= tasks[i].completed + advance.unwrap() <= i64::MAX)
}

/// `a / b` rounded up (`b` not zero), as Python's `math.ceil(a / b)` gives
/// it on exact values.
pub open spec fn ceil_div(a: int, b: int) -> int {
    if b > 0 {
        -((-a) / b)
    } else {
        -(a / (-b))
    }
}

/// Python's `Task.time_remaining`, in whole seconds on a clock of
/// `ticks_per_second` ticks: 0 once finished; none without a speed (or a
/// zero one) or without a total; else what remains over the speed, rounded
/// up.
pub open spec fn time_remaining_spec(t: TaskRecord, ticks_per_second: int) -> Option<int> {
    if t.finished_time is Some {
        Some(0)
    } else {
        match speed_spec(t.start_time, t.samples@) {
            None => None,
            Some((c, span)) => if c == 0 {
                None
            } else {
                match t.total {
                    None => None,
                    Some(total) => Some(ceil_div((total - t.completed) * span, c * ticks_per_second)),
                }
            },
        }
    }
}

/// A signed whole number as its sign (`true` when below zero) and magnitude.
pub open spec fn signed_magnitude(q: int) -> (bool, u128) {
    if q < 0 {
        (true, (-q) as u128)
    } else {
        (false, q as u128)
    }
}

proof fn lemma_sum_bound(s: Seq<Sample>)
    requires
        forall|i: int| 0 <= i < s.len() ==> #[trigger] sample_in_range(s[i]),
    ensures
        -(s.len() as int) * 0x1_0000_0000_0000_0000 <= sum_completed(s) <= (s.len() as int) * 0x1_0000_0000_0000_0000,
    decreases s.len(),
{
    if s.len() > 0 {
        assert forall|i: int| 0 <= i < s.drop_last().len() implies #[trigger] sample_in_range(s.drop_last()[i]) by {
            assert(s.drop_last()[i] == s[i]);
        }
        lemma_sum_bound(s.drop_last());
        assert(sample_in_range(s[s.len() - 1]));
    }
}

proof fn lemma_neg_div(m: int, d: int)
    requires
        m >= 0,
        d > 0,
    ensures
        (-m) / d == -(m / d) - (if m % d == 0 { 0int } else { 1int }),
        m / d <= m,
        d >= 2 ==> 2 * (m / d) <= m,
{
    let q = m / d;
    let r = m % d;
    vstd::arithmetic::div_mod::lemma_fundamental_div_mod(m, d);
    assert(0 <= r < d);
    assert(m == d * q + r);
    assert(q >= 0) by (nonlinear_arith)
        requires m == d * q + r, 0 <= r < d, m >= 0, d > 0;
    assert(q <= m) by (nonlinear_arith)
        requires m == d * q + r, 0 <= r, d >= 1, q >= 0;
    if d >= 2 {
        assert(2 * q <= m) by (nonlinear_arith)
            requires m == d * q + r, 0 <= r, d >= 2, q >= 0;
    }
    if r == 0 {
        assert(-m == (-q) * d + 0) by (nonlinear_arith)
            requires m == d * q + r, r == 0;
        vstd::arithmetic::div_mod::lemma_fundamental_div_mod_converse(-m, d, -q, 0);
    } else {
        assert(-m == (-q - 1) * d + (d - r)) by (nonlinear_arith)
            requires m == d * q + r;
        vstd::arithmetic::div_mod::lemma_fundamental_div_mod_converse(-m, d, -q - 1, d - r);
    }
}

/// `|x * y| == |x| * |y|`, and the product is below zero when exactly one
/// factor is.
proof fn lemma_abs_mul(x: int, y: int)
    ensures
        abs(x * y) == abs(x) * abs(y),
        x * y < 0 <==> (x != 0 && y != 0 && ((x < 0) != (y < 0))),
{
    if x >= 0 && y >= 0 {
        assert(x * y >= 0) by (nonlinear_arith) requires x >= 0, y >= 0;
        assert(x == 0 || y == 0 ==> x * y == 0) by (nonlinear_arith);
    } else if x < 0 && y < 0 {
        assert(x * y == (-x) * (-y)) by (nonlinear_arith);
        assert((-x) * (-y) > 0) by (nonlinear_arith) requires x < 0, y < 0;
    } else if x < 0 {
        assert(x * y == -((-x) * y)) by (nonlinear_arith);
        assert(y == 0 ==> x * y == 0) by (nonlinear_arith);
        assert(y > 0 ==> (-x) * y > 0) by (nonlinear_arith) requires x < 0;
    } else {
        assert(x * y == -(x * (-y))) by (nonlinear_arith);
        assert(x == 0 ==> x * y == 0) by (nonlinear_arith);
        assert(x > 0 ==> x * (-y) > 0) by (nonlinear_arith) requires y < 0;
    }
}

/// The absolute value of `x`.
pub open spec fn abs(x: int) -> int {
    if x < 0 { -x } else { x }
}

/// [`ceil_div`] through the magnitudes: `|a| / |b|` rounded up when `a` is
/// not below zero exactly when `b` is above it, else `-(|a| / |b|)`.
proof fn lemma_ceil_div_cases(a: int, b: int)
    requires
        b != 0,
    ensures
        (a >= 0) != (b > 0) ==> ceil_div(a, b) == -(abs(a) / abs(b)),
        (a >= 0) == (b > 0) ==> ceil_div(a, b)
            == abs(a) / abs(b) + (if abs(a) % abs(b) == 0 { 0int } else { 1int }),
{
    lemma_neg_div(abs(a), abs(b));
}

/// The magnitude of `x`.
fn magnitude(x: i128) -> (m: u128)
    requires
        x > i128::MIN,
    ensures
        m == (if x < 0 { -x } else { x as int }),
{
    if x < 0 {
        (-x) as u128
    } else {
        x as u128
    }
}

impl TaskRecord {
    /// Whether the task's clock was started.
    pub fn started(&self) -> (b: bool)
        ensures
            b == self.start_time.is_some(),
    {
        self.start_time.is_some()
    }

    /// Whether the task finished (it has a finished time).
    pub fn finished(&self) -> (b: bool)
        ensures
            b == self.finished_time.is_some(),
    {
        self.finished_time.is_some()
    }

    /// What is left to do: `total - completed`, none without a total.
    pub fn remaining(&self) -> (r: Option<i128>)
        ensures
            r == match self.total {
                None => None::<i128>,
                Some(t) => Some((t - self.completed) as i128),
            },
    {
        match self.total {
            None => None,
            Some(t) => Some(t as i128 - self.completed as i128),
        }
    }

    /// The time since the task started, up to when it stopped.
    pub fn elapsed(&self, now: i64) -> (e: Option<i128>)
        ensures
            e == match elapsed_spec(self.start_time, self.stop_time, now) {
                None => None::<i128>,
                Some(d) => Some(d as i128),
            },
    {
        match self.start_time {
            None => None,
            Some(s) => match self.stop_time {
                Some(t) => Some(t as i128 - s as i128),
                None => Some(now as i128 - s as i128),
            },
        }
    }

    /// The task's speed over its samples (see [`speed_spec`]).
    pub fn speed(&self) -> (sp: Option<Speed>)
        requires
            samples_ok(self.samples@),
        ensures
            sp == match speed_spec(self.start_time, self.samples@) {
                None => None::<Speed>,
                Some((c, t)) => Some(Speed { completed: c as i128, span: t as i128 }),
            },
    {
        if self.start_time.is_none() || self.samples.len() == 0 {
            return None;
        }
        let n = self.samples.len();
        let span = self.samples[n - 1].time as i128 - self.samples[0].time as i128;
        if span == 0 {
            return None;
        }
        let mut acc: i128 = 0;
        let mut i: usize = 1;
        proof {
            assert(self.samples@.subrange(1, 1) =~= Seq::<Sample>::empty());
        }
        while i < n
            invariant
                1 <= i <= n,
                n == self.samples.len(),
                samples_ok(self.samples@),
                acc == sum_completed(self.samples@.subrange(1, i as int)),
                -(i as int) * 0x1_0000_0000_0000_0000 <= acc <= (i as int) * 0x1_0000_0000_0000_0000,
            decreases n - i,
        {
            proof {
                lemma_sum_step(self.samples@, i as int);
                assert(sample_in_range(self.samples@[i as int]));
            }
            acc = acc + self.samples[i].completed;
            i = i + 1;
        }
        proof {
            assert(self.samples@.subrange(1, n as int) == self.samples@.drop_first());
        }
        Some(Speed { completed: acc, span })
    }

    /// Python's `Task.time_remaining` in whole seconds on a clock of
    /// `ticks_per_second` ticks, as its sign and magnitude (see
    /// [`time_remaining_spec`]).
    pub fn time_remaining(&self, ticks_per_second: u32) -> (r: Option<(bool, u128)>)
        requires
            samples_ok(self.samples@),
            ticks_per_second > 0,
        ensures
            r == match time_remaining_spec(*self, ticks_per_second as int) {
                None => None::<(bool, u128)>,
                Some(q) => Some(signed_magnitude(q)),
            },
    {
        if self.finished_time.is_some() {
            return Some((false, 0));
        }
        let sp = match self.speed() {
            None => return None,
            Some(sp) => sp,
        };
        proof {
            assert forall|i: int| 0 <= i < self.samples@.drop_first().len()
                implies #[trigger] sample_in_range(self.samples@.drop_first()[i]) by {
                assert(self.samples@.drop_first()[i] == self.samples@[i + 1]);
                assert(sample_in_range(self.samples@[i + 1]));
            }
            lemma_sum_bound(self.samples@.drop_first());
        }
        if sp.completed == 0 {
            return None;
        }
        let total = match self.total {
            None => return None,
            Some(t) => t,
        };
        let rem: i128 = total as i128 - self.completed as i128;
        let mr = magnitude(rem);
        let ms = magnitude(sp.span);
        let mc = magnitude(sp.completed);
        let tps = ticks_per_second as u128;
        assert(mr * ms < 0x1_0000_0000_0000_0000_0000_0000_0000_0000) by (nonlinear_arith)
            requires mr < 0x1_0000_0000_0000_0000, ms < 0x1_0000_0000_0000_0000;
        assert(mc * tps <= 1000 * 0x1_0000_0000_0000_0000 * 0x1_0000_0000) by (nonlinear_arith)
            requires mc <= 1000 * 0x1_0000_0000_0000_0000, tps <= 0x1_0000_0000;
        assert(mc * tps >= 1) by (nonlinear_arith)
            requires mc >= 1, tps >= 1;
        let num: u128 = mr * ms;
        let den: u128 = mc * tps;
        let q = num / den;
        let up = num % den != 0;
        let negative = ((rem < 0) != (sp.span < 0)) != (sp.completed < 0);
        let ghost a: int = (total - self.completed) * (sp.span as int);
        let ghost b: int = (sp.completed as int) * (ticks_per_second as int);
        proof {
            lemma_abs_mul(rem as int, sp.span as int);
            lemma_abs_mul(sp.completed as int, ticks_per_second as int);
            lemma_ceil_div_cases(a, b);
            lemma_neg_div(num as int, den as int);
        }
        if num == 0 {
            Some((false, 0))
        } else if negative {
            if q == 0 { Some((false, 0)) } else { Some((true, q)) }
        } else {
            let v = if up { q + 1 } else { q };
            Some((false, v))
        }
    }
}

/// The tasks of a progress display, in the order they were added.
pub struct TaskTable {
    tasks: Vec<TaskRecord>,
    task_index: u64,
    speed_estimate_period: i64,
}

/// Whether some task of `tasks` has the id.
pub open spec fn has_id(tasks: Seq<TaskRecord>, id: u64) -> bool {
    exists|i: int| 0 <= i < tasks.len() && tasks[i].id == id
}

impl TaskTable {
    /// The tasks, in the order they were added.
    pub closed spec fn tasks(&self) -> Seq<TaskRecord> {
        self.tasks@
    }

    /// The id the next task will get.
    pub closed spec fn next_id(&self) -> u64 {
        self.task_index
    }

    /// How far back, in ticks, samples count towards the speed.
    pub closed spec fn period(&self) -> i64 {
        self.speed_estimate_period
    }

    /// Ids increase in the order tasks were added and stay below the next
    /// id; every task holds an acceptable sample window.
    pub open spec fn wf(&self) -> bool {
        &&& forall|i: int, j: int| 0 <= i < j < self.tasks().len()
            ==> #[trigger] self.tasks()[i].id < #[trigger] self.tasks()[j].id
        &&& forall|i: int| 0 <= i < self.tasks().len() ==> #[trigger] self.tasks()[i].id < self.next_id()
        &&& forall|i: int| 0 <= i < self.tasks().len() ==> samples_ok(#[trigger] self.tasks()[i].samples@)
    }

    /// An empty table whose speed window is `speed_estimate_period` ticks.
    pub fn new(speed_estimate_period: i64) -> (t: TaskTable)
        ensures
            t.wf(),
            t.tasks().len() == 0,
            t.next_id() == 0,
            t.period() == speed_estimate_period,
    {
        TaskTable { tasks: Vec::new(), task_index: 0, speed_estimate_period }
    }

    /// The id the next task will get.
    pub fn next_task_id(&self) -> (id: u64)
        ensures
            id == self.next_id(),
    {
        self.task_index
    }

    /// The number of tasks.
    pub fn len(&self) -> (n: usize)
        ensures
            n == self.tasks().len(),
    {
        self.tasks.len()
    }

    /// The position of the task with `id`, if there is one.
    pub fn position(&self, id: u64) -> (r: Option<usize>)
        requires
            self.wf(),
        ensures
            match r {
                Some(i) => i < self.tasks().len() && self.tasks()[i as int].id == id,
                None => !has_id(self.tasks(), id),
            },
    {
        let mut i: usize = 0;
        while i < self.tasks.len()
            invariant
                i <= self.tasks@.len(),
                forall|j: int| 0 <= j < i ==> self.tasks@[j].id != id,
            decreases self.tasks@.len() - i,
        {
            if self.tasks[i].id == id {
                return Some(i);
            }
            i = i + 1;
        }
        None
    }

    /// The task with `id`, if there is one.
    pub fn task(&self, id: u64) -> (r: Option<&TaskRecord>)
        requires
            self.wf(),
        ensures
            match r {
                Some(t) => t.id == id && exists|i: int| 0 <= i < self.tasks().len() && self.tasks()[i] == *t,
                None => !has_id(self.tasks(), id),
            },
    {
        match self.position(id) {
            Some(i) => Some(&self.tasks[i]),
            None => None,
        }
    }

    /// The task at position `i`, in the order tasks were added.
    pub fn task_at(&self, i: usize) -> (t: &TaskRecord)
        requires
            i < self.tasks().len(),
        ensures
            *t == self.tasks()[i as int],
    {
        &self.tasks[i]
    }

    /// The ids of the tasks, in the order they were added.
    pub fn task_ids(&self) -> (ids: Vec<u64>)
        ensures
            ids@.len() == self.tasks().len(),
            forall|i: int| 0 <= i < ids@.len() ==> ids@[i] == #[trigger] self.tasks()[i].id,
    {
        let mut ids: Vec<u64> = Vec::new();
        let mut i: usize = 0;
        while i < self.tasks.len()
            invariant
                i <= self.tasks@.len(),
                ids@.len() == i,
                forall|j: int| 0 <= j < i ==> ids@[j] == #[trigger] self.tasks@[j].id,
            decreases self.tasks@.len() - i,
        {
            ids.push(self.tasks[i].id);
            i = i + 1;
        }
        ids
    }

    /// Whether every task has finished (true of an empty table).
    pub fn finished(&self) -> (b: bool)
        ensures
            b == forall|i: int| 0 <= i < self.tasks().len() ==> (#[trigger] self.tasks()[i]).finished_time.is_some(),
    {
        let mut i: usize = 0;
        while i < self.tasks.len()
            invariant
                i <= self.tasks@.len(),
                forall|j: int| 0 <= j < i ==> (#[trigger] self.tasks@[j]).finished_time.is_some(),
            decreases self.tasks@.len() - i,
        {
            if self.tasks[i].finished_time.is_none() {
                return false;
            }
            i = i + 1;
        }
        true
    }

    /// Add a task under the next id and return that id; with `start`, its
    /// clock starts at `now`.
    pub fn add_task(&mut self, total: Option<i64>, completed: i64, visible: bool, start: bool, now: i64) -> (id: u64)
        requires
            old(self).wf(),
            old(self).next_id() < u64::MAX,
        ensures
            final(self).wf(),
            id == old(self).next_id(),
            final(self).next_id() == old(self).next_id() + 1,
            final(self).period() == old(self).period(),
            final(self).tasks().len() == old(self).tasks().len() + 1,
            forall|i: int| 0 <= i < old(self).tasks().len() ==> final(self).tasks()[i] == old(self).tasks()[i],
            ({
                let t = final(self).tasks().last();
                &&& t.id == id
                &&& t.total == total
                &&& t.completed == completed
                &&& t.visible == visible
                &&& t.start_time == (if start { Some(now) } else { None })
                &&& t.stop_time is None
                &&& t.finished_time is None
                &&& t.finished_speed is None
                &&& t.samples@.len() == 0
            }),
    {
        let id = self.task_index;
        let record = TaskRecord {
            id,
            total,
            completed,
            visible,
            start_time: if start { Some(now) } else { None },
            stop_time: None,
            finished_time: None,
            finished_speed: None,
            samples: Vec::new(),
        };
        self.tasks.push(record);
        self.task_index = id + 1;
        proof {
            let n = self.tasks@.len() - 1;
            assert forall|i: int, j: int| 0 <= i < j < self.tasks().len()
                implies #[trigger] self.tasks()[i].id < #[trigger] self.tasks()[j].id by {
                if j == n {
                    assert(self.tasks()[i].id == old(self).tasks()[i].id);
                } else {
                    assert(self.tasks()[i] == old(self).tasks()[i]);
                    assert(self.tasks()[j] == old(self).tasks()[j]);
                }
            }
            assert forall|i: int| 0 <= i < self.tasks().len() implies samples_ok(#[trigger] self.tasks()[i].samples@) by {
                if i < n {
                    assert(self.tasks()[i] == old(self).tasks()[i]);
                }
            }
        }
        id
    }

    /// Remove the task with `id`; the others keep their order.
    pub fn remove_task(&mut self, id: u64) -> (r: Result<(), TaskError>)
        requires
            old(self).wf(),
        ensures
            final(self).wf(),
            final(self).next_id() == old(self).next_id(),
            final(self).period() == old(self).period(),
            r is Err <==> !has_id(old(self).tasks(), id),
            r is Err ==> r == Err::<(), TaskError>(TaskError::Missing) && final(self).tasks() == old(self).tasks(),
            r is Ok ==> exists|i: int| 0 <= i < old(self).tasks().len() && old(self).tasks()[i].id == id
                && final(self).tasks() == old(self).tasks().remove(i),
            !has_id(final(self).tasks(), id),
    {
        match self.position(id) {
            None => Err(TaskError::Missing),
            Some(i) => {
                let _removed = self.tasks.remove(i);
                proof {
                    assert forall|a: int, b: int| 0 <= a < b < self.tasks().len()
                        implies #[trigger] self.tasks()[a].id < #[trigger] self.tasks()[b].id by {
                        let oa = if a < i { a } else { a + 1 };
                        let ob = if b < i { b } else { b + 1 };
                        assert(self.tasks()[a] == old(self).tasks()[oa]);
                        assert(self.tasks()[b] == old(self).tasks()[ob]);
                    }
                    assert forall|a: int| 0 <= a < self.tasks().len() implies #[trigger] self.tasks()[a].id < self.next_id() by {
                        let oa = if a < i { a } else { a + 1 };
                        assert(self.tasks()[a] == old(self).tasks()[oa]);
                    }
                    assert forall|a: int| 0 <= a < self.tasks().len() implies samples_ok(#[trigger] self.tasks()[a].samples@) by {
                        let oa = if a < i { a } else { a + 1 };
                        assert(self.tasks()[a] == old(self).tasks()[oa]);
                    }
                    if has_id(self.tasks(), id) {
                        let a = choose|a: int| 0 <= a < self.tasks().len() && self.tasks()[a].id == id;
                        let oa = if a < i { a } else { a + 1 };
                        assert(self.tasks()[a] == old(self).tasks()[oa]);
                        assert(old(self).tasks()[i as int].id == id);
                    }
                }
                Ok(())
            }
        }
    }

    /// Take the task at `i` out, to be put back by [`Self::put_back`].
    fn take_at(&mut self, i: usize) -> (t: TaskRecord)
        requires
            i < old(self).tasks().len(),
        ensures
            t == old(self).tasks()[i as int],
            final(self).tasks() == old(self).tasks().remove(i as int),
            final(self).next_id() == old(self).next_id(),
            final(self).period() == old(self).period(),
    {
        self.tasks.remove(i)
    }

    /// Put `t` back at `i`, where [`Self::take_at`] took a task with its id.
    fn put_back(&mut self, i: usize, t: TaskRecord, Ghost(before): Ghost<Seq<TaskRecord>>)
        requires
            i < before.len(),
            old(self).tasks() == before.remove(i as int),
            t.id == before[i as int].id,
            samples_ok(t.samples@),
            forall|a: int, b: int| 0 <= a < b < before.len() ==> #[trigger] before[a].id < #[trigger] before[b].id,
            forall|a: int| 0 <= a < before.len() ==> #[trigger] before[a].id < old(self).next_id(),
            forall|a: int| 0 <= a < before.len() ==> samples_ok(#[trigger] before[a].samples@),
        ensures
            final(self).wf(),
            final(self).tasks() == before.update(i as int, t),
            final(self).next_id() == old(self).next_id(),
            final(self).period() == old(self).period(),
    {
        self.tasks.insert(i, t);
        proof {
            assert(self.tasks() =~= before.update(i as int, t));
        }
    }

    /// Start the clock of the task with `id` at `now`, unless it already runs.
    pub fn start_task(&mut self, id: u64, now: i64) -> (r: Result<(), TaskError>)
        requires
            old(self).wf(),
        ensures
            final(self).wf(),
            final(self).next_id() == old(self).next_id(),
            final(self).period() == old(self).period(),
            r is Err <==> !has_id(old(self).tasks(), id),
            r is Err ==> r == Err::<(), TaskError>(TaskError::Missing) && final(self).tasks() == old(self).tasks(),
            r is Ok ==> exists|i: int| 0 <= i < old(self).tasks().len() && #[trigger] old(self).tasks()[i].id == id && {
                let t = old(self).tasks()[i];
                let u = final(self).tasks()[i];
                &&& final(self).tasks().len() == old(self).tasks().len()
                &&& forall|j: int| 0 <= j < old(self).tasks().len() && j != i ==> final(self).tasks()[j] == old(self).tasks()[j]
                &&& u.start_time == (if t.start_time is None { Some(now) } else { t.start_time })
                &&& u.id == t.id && u.total == t.total && u.completed == t.completed && u.visible == t.visible
                &&& u.stop_time == t.stop_time && u.finished_time == t.finished_time
                &&& u.finished_speed == t.finished_speed && u.samples == t.samples
            },
    {
        match self.position(id) {
            None => Err(TaskError::Missing),
            Some(i) => {
                let ghost before = self.tasks();
                let mut t = self.take_at(i);
                if t.start_time.is_none() {
                    t.start_time = Some(now);
                }
                self.put_back(i, t, Ghost(before));
                Ok(())
            }
        }
    }

    /// Stop the clock of the task with `id` at `now` (starting it there
    /// first if it never started).
    pub fn stop_task(&mut self, id: u64, now: i64) -> (r: Result<(), TaskError>)
        requires
            old(self).wf(),
        ensures
            final(self).wf(),
            final(self).next_id() == old(self).next_id(),
            final(self).period() == old(self).period(),
            r is Err <==> !has_id(old(self).tasks(), id),
            r is Err ==> r == Err::<(), TaskError>(TaskError::Missing) && final(self).tasks() == old(self).tasks(),
            r is Ok ==> exists|i: int| 0 <= i < old(self).tasks().len() && #[trigger] old(self).tasks()[i].id == id && {
                let t = old(self).tasks()[i];
                let u = final(self).tasks()[i];
                &&& final(self).tasks().len() == old(self).tasks().len()
                &&& forall|j: int| 0 <= j < old(self).tasks().len() && j != i ==> final(self).tasks()[j] == old(self).tasks()[j]
                &&& u.start_time == (if t.start_time is None { Some(now) } else { t.start_time })
                &&& u.stop_time == Some(now)
                &&& u.id == t.id && u.total == t.total && u.completed == t.completed && u.visible == t.visible
                &&& u.finished_time == t.finished_time
                &&& u.finished_speed == t.finished_speed && u.samples == t.samples
            },
    {
        match self.position(id) {
            None => Err(TaskError::Missing),
            Some(i) => {
                let ghost before = self.tasks();
                let mut t = self.take_at(i);
                if t.start_time.is_none() {
                    t.start_time = Some(now);
                }
                t.stop_time = Some(now);
                self.put_back(i, t, Ghost(before));
                Ok(())
            }
        }
    }

    /// `Progress.update`: a new total (which restarts the task's progress
    /// when it differs), an advance or a completed count, visibility; then a
    /// speed sample of what was completed, and the finished time once the
    /// total is reached.
    pub fn update(
        &mut self,
        id: u64,
        total: Option<i64>,
        completed: Option<i64>,
        advance: Option<i64>,
        visible: Option<bool>,
        now: i64,
    ) -> (r: Result<(), TaskError>)
        requires
            old(self).wf(),
        ensures
            final(self).wf(),
            final(self).next_id() == old(self).next_id(),
            final(self).period() == old(self).period(),
            r == Err::<(), TaskError>(TaskError::Missing) <==> !has_id(old(self).tasks(), id),
            r == Err::<(), TaskError>(TaskError::Overflow) <==> advance_overflows(old(self).tasks(), id, completed, advance),
            r is Err ==> final(self).tasks() == old(self).tasks(),
            r is Ok ==> exists|i: int| 0 <= i < old(self).tasks().len() && #[trigger] old(self).tasks()[i].id == id && {
                &&& final(self).tasks().len() == old(self).tasks().len()
                &&& forall|j: int| 0 <= j < old(self).tasks().len() && j != i ==> final(self).tasks()[j] == old(self).tasks()[j]
                &&& update_spec(old(self).tasks()[i], final(self).tasks()[i], total, completed, advance, visible, now, old(self).period())
            },
    {
        let i = match self.position(id) {
            None => return Err(TaskError::Missing),
            Some(i) => i,
        };
        let c: i64 = match completed {
            Some(c) => c,
            None => match advance {
                Some(a) => match self.tasks[i].completed.checked_add(a) {
                    Some(v) => v,
                    None => {
                        proof {
                            assert(advance_overflows(self.tasks(), id, completed, advance));
                        }
                        return Err(TaskError::Overflow);
                    },
                },
                None => self.tasks[i].completed,
            },
        };
        proof {
            if advance_overflows(self.tasks(), id, completed, advance) {
                let j = choose|j: int| 0 <= j < self.tasks().len() && #[trigger] self.tasks()[j].id == id
                    && completed is None && advance is Some
                    && !(i64::MIN <= self.tasks()[j].completed + advance.unwrap() <= i64::MAX);
                if j < i {
                    assert(self.tasks()[j].id < self.tasks()[i as int].id);
                } else if j > i {
                    assert(self.tasks()[i as int].id < self.tasks()[j].id);
                }
            }
        }
        let ghost before = self.tasks();
        let mut t = self.take_at(i);
        let start_completed = t.completed;
        if let Some(new_total) = total {
            let changed = match t.total {
                Some(current) => current != new_total,
                None => true,
            };
            if changed {
                t.total = Some(new_total);
                t.samples = Vec::new();
                t.finished_time = None;
                t.finished_speed = None;
            }
        }
        t.completed = c;
        if let Some(v) = visible {
            t.visible = v;
        }
        let delta: i128 = c as i128 - start_completed as i128;
        let cutoff: i128 = now as i128 - self.speed_estimate_period as i128;
        drop_old_samples(&mut t.samples, cutoff);
        if delta > 0 {
            push_sample(&mut t.samples, Sample { time: now, completed: delta });
        }
        if let Some(target) = t.total {
            if c >= target && t.finished_time.is_none() {
                t.finished_time = t.elapsed(now);
            }
        }
        self.put_back(i, t, Ghost(before));
        Ok(())
    }

    /// `Progress.advance`: add `advance` to the completed count, record it
    /// as a speed sample, and on reaching the total note the finished time
    /// and speed.
    pub fn advance(&mut self, id: u64, advance: i64, now: i64) -> (r: Result<(), TaskError>)
        requires
            old(self).wf(),
        ensures
            final(self).wf(),
            final(self).next_id() == old(self).next_id(),
            final(self).period() == old(self).period(),
            r == Err::<(), TaskError>(TaskError::Missing) <==> !has_id(old(self).tasks(), id),
            r == Err::<(), TaskError>(TaskError::Overflow) <==> advance_overflows(old(self).tasks(), id, None, Some(advance)),
            r is Err ==> final(self).tasks() == old(self).tasks(),
            r is Ok ==> exists|i: int| 0 <= i < old(self).tasks().len() && #[trigger] old(self).tasks()[i].id == id && {
                &&& final(self).tasks().len() == old(self).tasks().len()
                &&& forall|j: int| 0 <= j < old(self).tasks().len() && j != i ==> final(self).tasks()[j] == old(self).tasks()[j]
                &&& advance_spec(old(self).tasks()[i], final(self).tasks()[i], advance, now, old(self).period())
            },
    {
        let i = match self.position(id) {
            None => return Err(TaskError::Missing),
            Some(i) => i,
        };
        let c: i64 = match self.tasks[i].completed.checked_add(advance) {
            Some(v) => v,
            None => {
                proof {
                    assert(advance_overflows(self.tasks(), id, None, Some(advance)));
                }
                return Err(TaskError::Overflow);
            },
        };
        proof {
            if advance_overflows(self.tasks(), id, None, Some(advance)) {
                let j = choose|j: int| 0 <= j < self.tasks().len() && #[trigger] self.tasks()[j].id == id
                    && !(i64::MIN <= self.tasks()[j].completed + advance <= i64::MAX);
                if j < i {
                    assert(self.tasks()[j].id < self.tasks()[i as int].id);
                } else if j > i {
                    assert(self.tasks()[i as int].id < self.tasks()[j].id);
                }
            }
        }
        let ghost before = self.tasks();
        let mut t = self.take_at(i);
        t.completed = c;
        let cutoff: i128 = now as i128 - self.speed_estimate_period as i128;
        drop_old_samples(&mut t.samples, cutoff);
        push_sample(&mut t.samples, Sample { time: now, completed: advance as i128 });
        if let Some(target) = t.total {
            if c >= target && t.finished_time.is_none() {
                t.finished_time = t.elapsed(now);
                t.finished_speed = t.speed();
            }
        }
        self.put_back(i, t, Ghost(before));
        Ok(())
    }

    /// `Progress.reset`: nothing completed (or `completed`), no samples, not
    /// finished, the clock restarted at `now` (or cleared without `start`),
    /// and a new total or visibility when given.
    pub fn reset(
        &mut self,
        id: u64,
        start: bool,
        total: Option<i64>,
        completed: Option<i64>,
        visible: Option<bool>,
        now: i64,
    ) -> (r: Result<(), TaskError>)
        requires
            old(self).wf(),
        ensures
            final(self).wf(),
            final(self).next_id() == old(self).next_id(),
            final(self).period() == old(self).period(),
            r is Err <==> !has_id(old(self).tasks(), id),
            r is Err ==> r == Err::<(), TaskError>(TaskError::Missing) && final(self).tasks() == old(self).tasks(),
            r is Ok ==> exists|i: int| 0 <= i < old(self).tasks().len() && #[trigger] old(self).tasks()[i].id == id && {
                &&& final(self).tasks().len() == old(self).tasks().len()
                &&& forall|j: int| 0 <= j < old(self).tasks().len() && j != i ==> final(self).tasks()[j] == old(self).tasks()[j]
                &&& reset_spec(old(self).tasks()[i], final(self).tasks()[i], start, total, completed, visible, now)
            },
    {
        let i = match self.position(id) {
            None => return Err(TaskError::Missing),
            Some(i) => i,
        };
        let ghost before = self.tasks();
        let mut t = self.take_at(i);
        t.samples = Vec::new();
        t.finished_time = None;
        t.finished_speed = None;
        t.start_time = if start { Some(now) } else { None };
        if let Some(new_total) = total {
            t.total = Some(new_total);
        }
        t.completed = match completed {
            Some(c) => c,
            None => 0,
        };
        if let Some(v) = visible {
            t.visible = v;
        }
        self.put_back(i, t, Ghost(before));
        Ok(())
    }
}

/// The ids of the visible tasks of `s`, in order.
pub open spec fn visible_ids_spec(s: Seq<TaskRecord>) -> Seq<u64>
    decreases s.len(),
{
    if s.len() == 0 {
        Seq::empty()
    } else {
        visible_ids_spec(s.drop_last()) + if s.last().visible { seq![s.last().id] } else { Seq::empty() }
    }
}

/// Why `wrap_file` has no total to track.
#[derive(Clone, Copy, PartialEq, Eq, Debug)]
pub enum FileTotalError {
    /// The task named has no such id (`KeyError`).
    Missing,
    /// No total was given and the task has none (`ValueError: unable to get
    /// the total number of bytes, please specify 'total'`).
    NoTotal,
}

impl TaskTable {
    /// The ids of the visible tasks, in order: the rows of the task grid.
    pub fn visible_ids(&self) -> (ids: Vec<u64>)
        ensures
            ids@ == visible_ids_spec(self.tasks()),
    {
        let mut ids: Vec<u64> = Vec::new();
        let mut i: usize = 0;
        while i < self.tasks.len()
            invariant
                i <= self.tasks@.len(),
                ids@ == visible_ids_spec(self.tasks@.take(i as int)),
            decreases self.tasks@.len() - i,
        {
            proof {
                assert(self.tasks@.take(i + 1 as int).drop_last() =~= self.tasks@.take(i as int));
            }
            if self.tasks[i].visible {
                ids.push(self.tasks[i].id);
            }
            i = i + 1;
        }
        assert(self.tasks@.take(self.tasks@.len() as int) =~= self.tasks@);
        ids
    }

    /// What `Progress.open` and `wrap_file` do with the file's total: without
    /// a task id, add exactly one task with that total (started, visible,
    /// nothing completed) and return its id; with one, update that task's
    /// total and add none.
    pub fn add_or_update(&mut self, task_id: Option<u64>, total: i64, now: i64) -> (r: Result<u64, TaskError>)
        requires
            old(self).wf(),
            task_id is None ==> old(self).next_id() < u64::MAX,
        ensures
            final(self).wf(),
            final(self).period() == old(self).period(),
            task_id is None ==> {
                &&& r == Ok::<u64, TaskError>(old(self).next_id())
                &&& final(self).next_id() == old(self).next_id() + 1
                &&& final(self).tasks().len() == old(self).tasks().len() + 1
                &&& forall|i: int| 0 <= i < old(self).tasks().len() ==> final(self).tasks()[i] == old(self).tasks()[i]
                &&& ({
                    let t = final(self).tasks().last();
                    &&& t.id == old(self).next_id()
                    &&& t.total == Some(total)
                    &&& t.completed == 0
                    &&& t.visible
                    &&& t.start_time == Some(now)
                    &&& t.stop_time is None
                    &&& t.finished_time is None
                    &&& t.finished_speed is None
                    &&& t.samples@.len() == 0
                })
            },
            task_id matches Some(id) ==> {
                &&& final(self).next_id() == old(self).next_id()
                &&& final(self).tasks().len() == old(self).tasks().len()
                &&& (r == Err::<u64, TaskError>(TaskError::Missing) <==> !has_id(old(self).tasks(), id))
                &&& (r is Err ==> final(self).tasks() == old(self).tasks())
                &&& (r is Ok ==> r == Ok::<u64, TaskError>(id) && exists|i: int|
                    0 <= i < old(self).tasks().len() && #[trigger] old(self).tasks()[i].id == id && {
                        &&& forall|j: int| 0 <= j < old(self).tasks().len() && j != i ==> final(self).tasks()[j] == old(self).tasks()[j]
                        &&& update_spec(old(self).tasks()[i], final(self).tasks()[i], Some(total), None, None, None, now, old(self).period())
                    })
            },
    {
        match task_id {
            None => Ok(self.add_task(Some(total), 0, true, true, now)),
            Some(id) => {
                let r = self.update(id, Some(total), None, None, None, now);
                proof {
                    assert(!advance_overflows(old(self).tasks(), id, None, None));
                }
                match r {
                    Ok(()) => Ok(id),
                    Err(e) => Err(e),
                }
            },
        }
    }

    /// `wrap_file`'s total: the one given, else the total of the task
    /// named; an error when neither gives one.
    pub fn file_total(&self, total: Option<i64>, task_id: Option<u64>) -> (r: Result<i64, FileTotalError>)
        requires
            self.wf(),
        ensures
            total matches Some(t) ==> r == Ok::<i64, FileTotalError>(t),
            total is None && task_id is None ==> r == Err::<i64, FileTotalError>(FileTotalError::NoTotal),
            total is None && (task_id matches Some(id) && !has_id(self.tasks(), id))
                ==> r == Err::<i64, FileTotalError>(FileTotalError::Missing),
            total is None && (task_id matches Some(id) && has_id(self.tasks(), id)) ==> exists|i: int|
                0 <= i < self.tasks().len() && #[trigger] self.tasks()[i].id == task_id->0 && match self.tasks()[i].total {
                    Some(t) => r == Ok::<i64, FileTotalError>(t),
                    None => r == Err::<i64, FileTotalError>(FileTotalError::NoTotal),
                },
    {
        if let Some(t) = total {
            return Ok(t);
        }
        match task_id {
            None => Err(FileTotalError::NoTotal),
            Some(id) => match self.position(id) {
                None => Err(FileTotalError::Missing),
                Some(i) => match self.tasks[i].total {
                    Some(t) => Ok(t),
                    None => Err(FileTotalError::NoTotal),
                },
            },
        }
    }
}

/// A task id names at most one task of a well-formed table.
pub proof fn law_ids_unique(t: TaskTable, i: int, j: int)
    requires
        t.wf(),
        0 <= i < t.tasks().len(),
        0 <= j < t.tasks().len(),
        t.tasks()[i].id == t.tasks()[j].id,
    ensures
        i == j,
{
    if i < j {
        assert(t.tasks()[i].id < t.tasks()[j].id);
    } else if j < i {
        assert(t.tasks()[j].id < t.tasks()[i].id);
    }
}

/// The id the next task gets names no task yet, so an id is never reused,
/// not even after its task was removed.
pub proof fn law_next_id_is_fresh(t: TaskTable)
    requires
        t.wf(),
    ensures
        !has_id(t.tasks(), t.next_id()),
{
    if has_id(t.tasks(), t.next_id()) {
        let i = choose|i: int| 0 <= i < t.tasks().len() && t.tasks()[i].id == t.next_id();
        assert(t.tasks()[i].id < t.next_id());
    }
}

/// Advancing never takes a finished task back: its finished time and speed
/// stay as they were.
pub proof fn law_advance_keeps_finished(t: TaskRecord, u: TaskRecord, advance: i64, now: i64, period: i64)
    requires
        advance_spec(t, u, advance, now, period),
        t.finished_time is Some,
    ensures
        u.finished_time == t.finished_time,
        u.finished_speed == t.finished_speed,
{
}

/// An update that names the task's own total keeps its progress: the
/// samples carry on and a finished task stays finished.
pub proof fn law_same_total_keeps_progress(
    t: TaskRecord,
    u: TaskRecord,
    completed: Option<i64>,
    advance: Option<i64>,
    visible: Option<bool>,
    now: i64,
    period: i64,
)
    requires
        update_spec(t, u, t.total, completed, advance, visible, now, period),
    ensures
        u.total == t.total,
        t.finished_time is Some ==> u.finished_time == t.finished_time,
        u.finished_speed == t.finished_speed,
        updated_completed(t, completed, advance) - t.completed <= 0 ==> u.samples@ == drop_old(t.samples@, now - period),
{
}

/// A sample window never holds more than [`MAX_SAMPLES`] samples, and an
/// update keeps every sample in range.
pub proof fn law_window_bounded(s: Seq<Sample>, cutoff: int, sample: Option<Sample>)
    requires
        samples_ok(s),
        sample matches Some(x) ==> sample_in_range(x),
    ensures
        samples_ok(window_after(s, cutoff, sample)),
{
    lemma_drop_old(s, cutoff);
    let d = drop_old(s, cutoff);
    match sample {
        None => {},
        Some(x) => {
            let p = d.push(x);
            let w = keep_last(p, MAX_SAMPLES as nat);
            assert forall|i: int| 0 <= i < w.len() implies #[trigger] sample_in_range(w[i]) by {
                if p.len() > MAX_SAMPLES {
                    assert(w[i] == p[i + 1]);
                }
            }
        },
    }
}

/// Samples in time order (non-decreasing).
pub open spec fn in_time_order(s: Seq<Sample>) -> bool {
    forall|i: int, j: int| 0 <= i <= j < s.len() ==> #[trigger] s[i].time <= #[trigger] s[j].time
}

proof fn lemma_drop_old_in_order(s: Seq<Sample>, cutoff: int) -> (k: int)
    requires
        in_time_order(s),
    ensures
        0 <= k <= s.len(),
        forall|i: int| 0 <= i < k ==> #[trigger] s[i].time < cutoff,
        forall|i: int| k <= i < s.len() ==> #[trigger] s[i].time >= cutoff,
        drop_old(s, cutoff) == s.subrange(k, s.len() as int),
    decreases s.len(),
{
    if s.len() > 0 && s[0].time < cutoff {
        let t = s.drop_first();
        assert(in_time_order(t)) by {
            assert forall|i: int, j: int| 0 <= i <= j < t.len() implies #[trigger] t[i].time <= #[trigger] t[j].time by {
                assert(t[i] == s[i + 1] && t[j] == s[j + 1]);
            }
        }
        let k1 = lemma_drop_old_in_order(t, cutoff);
        assert forall|i: int| 0 <= i < k1 + 1 implies #[trigger] s[i].time < cutoff by {
            if i > 0 {
                assert(s[i] == t[i - 1]);
            }
        }
        assert forall|i: int| k1 + 1 <= i < s.len() implies #[trigger] s[i].time >= cutoff by {
            assert(s[i] == t[i - 1]);
        }
        assert(t.subrange(k1, t.len() as int) =~= s.subrange(k1 + 1, s.len() as int));
        k1 + 1
    } else {
        if s.len() > 0 {
            assert forall|i: int| 0 <= i < s.len() implies #[trigger] s[i].time >= cutoff by {
                assert(s[0].time <= s[i].time);
            }
        }
        assert(s.subrange(0, s.len() as int) =~= s);
        0
    }
}

/// With samples in time order and a new sample no older than any of them,
/// the window keeps exactly the samples still inside it (a prefix of older
/// ones is dropped), then the new one, the newest [`MAX_SAMPLES`] of them in
/// order; and the window stays in time order.
pub proof fn law_window_keeps_recent_in_order(s: Seq<Sample>, cutoff: int, x: Sample)
    requires
        in_time_order(s),
        forall|i: int| 0 <= i < s.len() ==> #[trigger] s[i].time <= x.time,
    ensures
        exists|k: int| {
            &&& 0 <= k <= s.len()
            &&& (forall|i: int| 0 <= i < k ==> #[trigger] s[i].time < cutoff)
            &&& (forall|i: int| k <= i < s.len() ==> #[trigger] s[i].time >= cutoff)
            &&& window_after(s, cutoff, Some(x)) == keep_last(s.subrange(k, s.len() as int).push(x), MAX_SAMPLES as nat)
        },
        in_time_order(window_after(s, cutoff, Some(x))),
{
    let k = lemma_drop_old_in_order(s, cutoff);
    let p = s.subrange(k, s.len() as int).push(x);
    assert(in_time_order(p)) by {
        assert forall|i: int, j: int| 0 <= i <= j < p.len() implies #[trigger] p[i].time <= #[trigger] p[j].time by {
            if j == p.len() - 1 {
                if i < p.len() - 1 {
                    assert(p[i] == s[i + k]);
                }
            } else {
                assert(p[i] == s[i + k] && p[j] == s[j + k]);
            }
        }
    }
    let w = keep_last(p, MAX_SAMPLES as nat);
    assert(in_time_order(w)) by {
        assert forall|i: int, j: int| 0 <= i <= j < w.len() implies #[trigger] w[i].time <= #[trigger] w[j].time by {
            if p.len() > MAX_SAMPLES {
                let o = p.len() - MAX_SAMPLES;
                assert(w[i] == p[i + o] && w[j] == p[j + o]);
            }
        }
    }
}

} // verus!
