//! The text of the progress columns that need no floating point: how
//! `open()` reads its mode, elapsed and remaining times, "M/N" counts, and
//! which unit a size or a speed is shown in.

use vstd::prelude::*;
use crate::chars::push_char;
use crate::numfmt::{
    decimal, grouped, push_decimal, push_signed_decimal, push_signed_grouped, push_str,
    push_two_digits, right_aligned, right_aligned_decimal, signed_decimal, signed_grouped,
    two_digits, all_digits, read_decimal, lemma_decimal_reads_back, lemma_two_digits_read_back,
};

verus! {

/// What `open()` reads from a file: bytes, or text through a wrapper.
#[derive(Clone, Copy, PartialEq, Eq, Debug)]
pub enum ModeKind {
    Binary,
    Text,
}

/// Why `open()` refused its arguments.
#[derive(Clone, Copy, PartialEq, Eq, Debug)]
pub enum OpenError {
    /// The mode is not a reading mode (`ValueError: invalid mode ...`).
    InvalidMode,
    /// Text mode with `buffering=0` (`ValueError: can't have unbuffered text I/O`).
    UnbufferedText,
}

/// How `open()` opens the file once its arguments are accepted.
#[derive(Clone, Copy, PartialEq, Eq, Debug)]
pub struct OpenPlan {
    pub kind: ModeKind,
    /// The buffering the file is opened with.
    pub buffering: i64,
    /// Line buffering for the text wrapper (`buffering == 1` as given).
    pub line_buffering: bool,
    /// Warn that binary mode cannot line-buffer.
    pub warn_line_buffering: bool,
    /// Wrap the reader in a text wrapper: the mode was written `"r"` or `"rt"`.
    pub text_wrapper: bool,
}

/// The kind of a mode whose sorted characters are `"br"`, `"rt"` or `"r"`.
pub open spec fn mode_kind(m: Seq<char>) -> Option<ModeKind> {
    if m == seq!['r'] || m == seq!['r', 't'] || m == seq!['t', 'r'] {
        Some(ModeKind::Text)
    } else if m == seq!['b', 'r'] || m == seq!['r', 'b'] {
        Some(ModeKind::Binary)
    } else {
        None
    }
}

/// `open()`'s checks of `mode` and `buffering`, and what it opens with.
pub open spec fn open_spec(m: Seq<char>, buffering: i64) -> Result<OpenPlan, OpenError> {
    match mode_kind(m) {
        None => Err(OpenError::InvalidMode),
        Some(ModeKind::Binary) => Ok(OpenPlan {
            kind: ModeKind::Binary,
            buffering: if buffering == 1 { -1i64 } else { buffering },
            line_buffering: buffering == 1,
            warn_line_buffering: buffering == 1,
            text_wrapper: false,
        }),
        Some(ModeKind::Text) => if buffering == 0 {
            Err(OpenError::UnbufferedText)
        } else {
            Ok(OpenPlan {
                kind: ModeKind::Text,
                buffering: if buffering == 1 { -1i64 } else { buffering },
                line_buffering: buffering == 1,
                warn_line_buffering: false,
                text_wrapper: m == seq!['r'] || m == seq!['r', 't'],
            })
        },
    }
}

/// `Progress.open`'s checks: the mode must sort to `"br"`, `"rt"` or `"r"`;
/// text cannot be unbuffered; `buffering=1` means line buffering, and the
/// file itself gets the default buffer then.
pub fn open_plan(mode: &str, buffering: i64) -> (r: Result<OpenPlan, OpenError>)
    ensures
        r == open_spec(mode@, buffering),
{
    let m = crate::chars::chars_of(mode);
    let kind = if m.len() == 1 && m[0] == 'r' {
        Some(ModeKind::Text)
    } else if m.len() == 2 && ((m[0] == 'r' && m[1] == 't') || (m[0] == 't' && m[1] == 'r')) {
        Some(ModeKind::Text)
    } else if m.len() == 2 && ((m[0] == 'b' && m[1] == 'r') || (m[0] == 'r' && m[1] == 'b')) {
        Some(ModeKind::Binary)
    } else {
        None
    };
    proof {
        if m@.len() == 1 && m@[0] == 'r' {
            assert(m@ == seq!['r']);
        }
        if m@.len() == 2 {
            if m@[0] == 'r' && m@[1] == 't' { assert(m@ == seq!['r', 't']); }
            if m@[0] == 't' && m@[1] == 'r' { assert(m@ == seq!['t', 'r']); }
            if m@[0] == 'b' && m@[1] == 'r' { assert(m@ == seq!['b', 'r']); }
            if m@[0] == 'r' && m@[1] == 'b' { assert(m@ == seq!['r', 'b']); }
        }
        assert(kind == mode_kind(m@));
    }
    let text_wrapper = (m.len() == 1 && m[0] == 'r') || (m.len() == 2 && m[0] == 'r' && m[1] == 't');
    proof {
        if text_wrapper {
            if m@.len() == 1 { assert(m@ == seq!['r']); } else { assert(m@ == seq!['r', 't']); }
        }
    }
    match kind {
        None => Err(OpenError::InvalidMode),
        Some(ModeKind::Binary) => Ok(OpenPlan {
            kind: ModeKind::Binary,
            buffering: if buffering == 1 { -1 } else { buffering },
            line_buffering: buffering == 1,
            warn_line_buffering: buffering == 1,
            text_wrapper: false,
        }),
        Some(ModeKind::Text) => if buffering == 0 {
            Err(OpenError::UnbufferedText)
        } else {
            Ok(OpenPlan {
                kind: ModeKind::Text,
                buffering: if buffering == 1 { -1 } else { buffering },
                line_buffering: buffering == 1,
                warn_line_buffering: false,
                text_wrapper,
            })
        },
    }
}

/// `H:MM:SS` for `s` seconds (the hours unpadded and unbounded).
pub open spec fn clock_text(s: nat) -> Seq<char> {
    decimal(s / 3600) + seq![':'] + two_digits((s % 3600) / 60) + seq![':'] + two_digits(s % 60)
}

/// `str(timedelta(seconds=s))`: `H:MM:SS`, after `"N day, "` or
/// `"N days, "` when there are whole days.
pub open spec fn timedelta_text(s: nat) -> Seq<char> {
    let days = s / 86400;
    if days == 0 {
        clock_text(s % 86400)
    } else if days == 1 {
        decimal(days) + seq![' ', 'd', 'a', 'y', ',', ' '] + clock_text(s % 86400)
    } else {
        decimal(days) + seq![' ', 'd', 'a', 'y', 's', ',', ' '] + clock_text(s % 86400)
    }
}

/// The elapsed column's text: `-:--:--` with no time, else the time
/// (negative times count as zero) as a `timedelta`.
pub open spec fn elapsed_spec(seconds: Option<i64>) -> Seq<char> {
    match seconds {
        None => seq!['-', ':', '-', '-', ':', '-', '-'],
        Some(s) => timedelta_text(if s < 0 { 0 } else { s as nat }),
    }
}

fn push_clock(out: &mut String, s: u64)
    requires
        s < 86400,
    ensures
        final(out)@ == old(out)@ + clock_text(s as nat),
{
    push_decimal(out, s / 3600);
    push_char(out, ':');
    push_two_digits(out, (s % 3600) / 60);
    push_char(out, ':');
    push_two_digits(out, s % 60);
    assert(final(out)@ == old(out)@ + clock_text(s as nat));
}

/// `TimeElapsedColumn.render`'s text for whole seconds `seconds`.
pub fn elapsed_text(seconds: Option<i64>) -> (t: String)
    ensures
        t@ == elapsed_spec(seconds),
{
    let mut out = String::new();
    match seconds {
        None => {
            push_char(&mut out, '-');
            push_char(&mut out, ':');
            push_char(&mut out, '-');
            push_char(&mut out, '-');
            push_char(&mut out, ':');
            push_char(&mut out, '-');
            push_char(&mut out, '-');
        },
        Some(s) => {
            let s: u64 = if s < 0 { 0 } else { s as u64 };
            let days = s / 86400;
            if days > 0 {
                push_decimal(&mut out, days);
                push_char(&mut out, ' ');
                push_char(&mut out, 'd');
                push_char(&mut out, 'a');
                push_char(&mut out, 'y');
                if days != 1 {
                    push_char(&mut out, 's');
                }
                push_char(&mut out, ',');
                push_char(&mut out, ' ');
            }
            push_clock(&mut out, s % 86400);
        },
    }
    assert(out@ == elapsed_spec(seconds));
    out
}

/// Floor division and remainder by 60, as Python's `divmod(t, 60)`.
fn divmod60(t: i64) -> (r: (i64, i64))
    ensures
        r.0 == t / 60,
        r.1 == t % 60,
        0 <= r.1 < 60,
{
    if t >= 0 {
        let u = t as u64;
        ((u / 60) as i64, (u % 60) as i64)
    } else {
        let a: u64 = if t == i64::MIN { 9_223_372_036_854_775_808u64 } else { (-t) as u64 };
        let q = a / 60;
        let rem = a % 60;
        if rem == 0 {
            proof {
                assert(t == -(q * 60));
                assert(t / 60 == -(q as int)) by (nonlinear_arith)
                    requires t == -(q * 60), q >= 0;
            }
            (-(q as i64), 0)
        } else {
            proof {
                assert(t == -(q * 60 + rem));
                assert(t / 60 == -(q as int) - 1 && t % 60 == 60 - rem) by (nonlinear_arith)
                    requires t == -(q * 60 + rem), q >= 0, 0 < rem < 60;
            }
            (-(q as i64) - 1, 60 - rem as i64)
        }
    }
}

/// The remaining column's text for whole seconds `t`: `MM:SS` when compact
/// and under an hour, else `H:MM:SS`, with floor division throughout.
pub open spec fn remaining_clock(t: int, compact: bool) -> Seq<char> {
    let minutes = t / 60;
    let seconds = t % 60;
    let hours = minutes / 60;
    let mins = minutes % 60;
    if compact && hours == 0 {
        two_digits(mins as nat) + seq![':'] + two_digits(seconds as nat)
    } else {
        signed_decimal(hours) + seq![':'] + two_digits(mins as nat) + seq![':'] + two_digits(seconds as nat)
    }
}

/// `TimeRemainingColumn.render`'s text: nothing without a total, dashes
/// without a time, else the time as a clock.
pub open spec fn remaining_spec(has_total: bool, seconds: Option<i64>, compact: bool) -> Seq<char> {
    if !has_total {
        Seq::empty()
    } else {
        match seconds {
            None => if compact {
                seq!['-', '-', ':', '-', '-']
            } else {
                seq!['-', ':', '-', '-', ':', '-', '-']
            },
            Some(t) => remaining_clock(t as int, compact),
        }
    }
}

/// `TimeRemainingColumn.render`'s text for whole seconds `seconds`.
pub fn remaining_text(has_total: bool, seconds: Option<i64>, compact: bool) -> (s: String)
    ensures
        s@ == remaining_spec(has_total, seconds, compact),
{
    let mut out = String::new();
    if !has_total {
        return out;
    }
    match seconds {
        None => {
            if compact {
                push_char(&mut out, '-');
                push_char(&mut out, '-');
                push_char(&mut out, ':');
                push_char(&mut out, '-');
                push_char(&mut out, '-');
            } else {
                push_char(&mut out, '-');
                push_char(&mut out, ':');
                push_char(&mut out, '-');
                push_char(&mut out, '-');
                push_char(&mut out, ':');
                push_char(&mut out, '-');
                push_char(&mut out, '-');
            }
        },
        Some(t) => {
            let (minutes, seconds) = divmod60(t);
            let (hours, mins) = divmod60(minutes);
            if !(compact && hours == 0) {
                push_signed_decimal(&mut out, hours);
                push_char(&mut out, ':');
            }
            push_two_digits(&mut out, mins as u64);
            push_char(&mut out, ':');
            push_two_digits(&mut out, seconds as u64);
        },
    }
    assert(out@ == remaining_spec(has_total, seconds, compact));
    out
}

/// Whether `t` is a clock `H:MM:SS`: hours in digits without a leading
/// zero (unless they are just `0`), then two-digit minutes and seconds.
pub open spec fn is_clock(t: Seq<char>) -> bool {
    let n = t.len() as int;
    &&& n >= 7
    &&& t[n - 6] == ':'
    &&& t[n - 3] == ':'
    &&& all_digits(t.subrange(0, n - 6))
    &&& all_digits(t.subrange(n - 5, n - 3))
    &&& all_digits(t.subrange(n - 2, n))
    &&& (n > 7 ==> t[0] != '0')
}

/// The hours, minutes and seconds a clock `H:MM:SS` reads as.
pub open spec fn clock_fields(t: Seq<char>) -> (int, int, int) {
    let n = t.len() as int;
    (read_decimal(t.subrange(0, n - 6)), read_decimal(t.subrange(n - 5, n - 3)), read_decimal(t.subrange(n - 2, n)))
}

/// Whether `t` is a compact clock `MM:SS`.
pub open spec fn is_short_clock(t: Seq<char>) -> bool {
    &&& t.len() == 5
    &&& t[2] == ':'
    &&& all_digits(t.subrange(0, 2))
    &&& all_digits(t.subrange(3, 5))
}

/// The minutes and seconds a compact clock `MM:SS` reads as.
pub open spec fn short_clock_fields(t: Seq<char>) -> (int, int) {
    (read_decimal(t.subrange(0, 2)), read_decimal(t.subrange(3, 5)))
}

proof fn lemma_clock_reads(h: nat, m: nat, sec: nat)
    requires
        m < 60,
        sec < 60,
    ensures
        ({
            let t = decimal(h) + seq![':'] + two_digits(m) + seq![':'] + two_digits(sec);
            &&& is_clock(t)
            &&& clock_fields(t) == (h as int, m as int, sec as int)
        }),
{
    lemma_decimal_reads_back(h);
    lemma_two_digits_read_back(m);
    lemma_two_digits_read_back(sec);
    let d = decimal(h);
    let t = d + seq![':'] + two_digits(m) + seq![':'] + two_digits(sec);
    let n = t.len() as int;
    assert(n == d.len() + 6);
    assert(t.subrange(0, n - 6) =~= d);
    assert(t.subrange(n - 5, n - 3) =~= two_digits(m));
    assert(t.subrange(n - 2, n) =~= two_digits(sec));
    assert(t[n - 6] == ':');
    assert(t[n - 3] == ':');
    if n > 7 {
        assert(d.len() >= 2);
        assert(h >= 10);
        assert(t[0] == d[0]);
    }
}

proof fn lemma_short_clock_reads(m: nat, sec: nat)
    requires
        m < 60,
        sec < 60,
    ensures
        ({
            let t = two_digits(m) + seq![':'] + two_digits(sec);
            &&& is_short_clock(t)
            &&& short_clock_fields(t) == (m as int, sec as int)
        }),
{
    lemma_two_digits_read_back(m);
    lemma_two_digits_read_back(sec);
    let t = two_digits(m) + seq![':'] + two_digits(sec);
    assert(t.subrange(0, 2) =~= two_digits(m));
    assert(t.subrange(3, 5) =~= two_digits(sec));
}

/// An elapsed time under a day shows as the clock `H:MM:SS` of exactly
/// that many seconds (`str(timedelta(seconds=s))`): minutes and seconds
/// below 60, and `H * 3600 + MM * 60 + SS` is the time.
pub proof fn law_elapsed_reads_back(s: i64)
    requires
        0 <= s < 86400,
    ensures
        ({
            let t = elapsed_spec(Some(s));
            let (h, m, sec) = clock_fields(t);
            &&& is_clock(t)
            &&& 0 <= m < 60
            &&& 0 <= sec < 60
            &&& h * 3600 + m * 60 + sec == s
        }),
{
    let n = s as nat;
    assert(n / 86400 == 0);
    assert(n % 86400 == n);
    lemma_clock_reads(n / 3600, (n % 3600) / 60, n % 60);
    assert((n / 3600) * 3600 + ((n % 3600) / 60) * 60 + n % 60 == n) by (nonlinear_arith);
}

/// An elapsed time of a day or more shows the whole days first, read back
/// from the text, as `"N day, "` for one day and `"N days, "` otherwise,
/// then the clock of the rest of the last day, which reads back as exactly
/// the seconds past the whole days.
pub proof fn law_elapsed_days_read_back(s: i64)
    requires
        s >= 86400,
    ensures
        ({
            let t = elapsed_spec(Some(s));
            let days = s as int / 86400;
            let d = crate::numfmt::decimal(days as nat);
            let word: Seq<char> = if days == 1 { seq![' ', 'd', 'a', 'y', ',', ' '] } else { seq![' ', 'd', 'a', 'y', 's', ',', ' '] };
            let clock = t.subrange((d.len() + word.len()) as int, t.len() as int);
            let (h, m, sec) = clock_fields(clock);
            &&& read_decimal(t.subrange(0, d.len() as int)) == days
            &&& all_digits(t.subrange(0, d.len() as int))
            &&& t.subrange(d.len() as int, (d.len() + word.len()) as int) == word
            &&& is_clock(clock)
            &&& 0 <= m < 60
            &&& 0 <= sec < 60
            &&& days * 86400 + h * 3600 + m * 60 + sec == s
        }),
{
    let n = s as nat;
    let days = n / 86400;
    let r = n % 86400;
    let d = decimal(days);
    lemma_decimal_reads_back(days);
    lemma_clock_reads(r / 3600, (r % 3600) / 60, r % 60);
    let word: Seq<char> = if days == 1 { seq![' ', 'd', 'a', 'y', ',', ' '] } else { seq![' ', 'd', 'a', 'y', 's', ',', ' '] };
    let c = clock_text(r);
    let t = elapsed_spec(Some(s));
    assert(days >= 1);
    assert(t == d + word + c);
    assert(t.subrange(0, d.len() as int) =~= d);
    assert(t.subrange(d.len() as int, (d.len() + word.len()) as int) =~= word);
    assert(t.subrange((d.len() + word.len()) as int, t.len() as int) =~= c);
    assert(days * 86400 + r == n);
    assert((r / 3600) * 3600 + ((r % 3600) / 60) * 60 + r % 60 == r) by (nonlinear_arith);
}

/// The remaining time (at least 0) shows as the compact clock `MM:SS` of
/// exactly that many seconds when compact and under an hour, and otherwise
/// as the clock `H:MM:SS` of exactly that many seconds; minutes and seconds
/// are below 60 either way.
pub proof fn law_remaining_reads_back(t: i64, compact: bool)
    requires
        t >= 0,
    ensures
        compact && t < 3600 ==> ({
            let text = remaining_spec(true, Some(t), true);
            let (m, sec) = short_clock_fields(text);
            &&& is_short_clock(text)
            &&& 0 <= m < 60
            &&& 0 <= sec < 60
            &&& m * 60 + sec == t
        }),
        !(compact && t < 3600) ==> ({
            let text = remaining_spec(true, Some(t), compact);
            let (h, m, sec) = clock_fields(text);
            &&& is_clock(text)
            &&& 0 <= m < 60
            &&& 0 <= sec < 60
            &&& h * 3600 + m * 60 + sec == t
        }),
{
    let ti = t as int;
    let minutes = ti / 60;
    let seconds = ti % 60;
    let hours = minutes / 60;
    let mins = minutes % 60;
    assert(ti == minutes * 60 + seconds && 0 <= seconds < 60 && minutes >= 0) by (nonlinear_arith)
        requires ti >= 0, minutes == ti / 60, seconds == ti % 60;
    assert(minutes == hours * 60 + mins && 0 <= mins < 60 && hours >= 0) by (nonlinear_arith)
        requires minutes >= 0, hours == minutes / 60, mins == minutes % 60;
    assert(hours * 3600 + mins * 60 + seconds == ti) by (nonlinear_arith)
        requires ti == minutes * 60 + seconds, minutes == hours * 60 + mins;
    if ti < 3600 {
        assert(hours == 0) by (nonlinear_arith)
            requires hours * 3600 + mins * 60 + seconds == ti, ti < 3600, hours >= 0, mins >= 0, seconds >= 0;
    } else {
        assert(hours >= 1) by (nonlinear_arith)
            requires hours * 3600 + mins * 60 + seconds == ti, ti >= 3600, mins < 60, seconds < 60, hours >= 0;
    }
    lemma_short_clock_reads(mins as nat, seconds as nat);
    lemma_clock_reads(hours as nat, mins as nat, seconds as nat);
}

/// `str(total)`, or `"?"` without a total.
pub open spec fn total_text(total: Option<i64>) -> Seq<char> {
    match total {
        None => seq!['?'],
        Some(t) => signed_decimal(t as int),
    }
}

/// `MofNCompleteColumn.render`'s text: the completed count right-aligned to
/// the width of the total, the separator, the total.
pub open spec fn mofn_spec(completed: i64, total: Option<i64>, separator: Seq<char>) -> Seq<char> {
    right_aligned(signed_decimal(completed as int), total_text(total).len()) + separator + total_text(total)
}

/// `MofNCompleteColumn.render`'s text.
pub fn mofn_text(completed: i64, total: Option<i64>, separator: &str) -> (s: String)
    ensures
        s@ == mofn_spec(completed, total, separator@),
{
    let mut total_str = String::new();
    match total {
        None => push_char(&mut total_str, '?'),
        Some(t) => push_signed_decimal(&mut total_str, t),
    }
    assert(total_str@ == total_text(total));
    let width = crate::chars::chars_of(total_str.as_str()).len();
    let mut out = right_aligned_decimal(completed, width);
    push_str(&mut out, separator);
    push_str(&mut out, total_str.as_str());
    out
}

/// `b` to the power `e`.
pub open spec fn pow(b: nat, e: nat) -> nat
    decreases e,
{
    if e == 0 {
        1
    } else {
        b * pow(b, (e - 1) as nat)
    }
}

/// Where `pick_unit_and_suffix` stops from index `i` on: the first index
/// whose next power of `base` exceeds `size`, or the last of `n`.
pub open spec fn unit_index(size: int, n: nat, base: nat, i: nat) -> nat
    decreases n - i,
{
    if i + 1 >= n || size < pow(base, i + 1) {
        i
    } else {
        unit_index(size, n, base, i + 1)
    }
}

proof fn lemma_pow_values()
    ensures
        pow(1024, 9) == 1237940039285380274899124224,
        pow(1000, 2) == 1_000_000,
        pow(1000, 9) == 1_000_000_000_000_000_000_000_000_000,
{
    reveal_with_fuel(pow, 10);
}

proof fn lemma_pow_bound(base: nat, e: nat)
    requires
        base <= 1024,
    ensures
        pow(base, e) <= pow(1024, e),
    decreases e,
{
    if e > 0 {
        lemma_pow_bound(base, (e - 1) as nat);
        let p = pow(base, (e - 1) as nat);
        let q = pow(1024, (e - 1) as nat);
        assert(base * p <= 1024 * q) by (nonlinear_arith)
            requires base <= 1024, p <= q, 0 <= p;
    }
}

/// `pick_unit_and_suffix(size, suffixes, base)` for `n` suffixes: the index
/// of the suffix and the unit, `base` to that power.
pub fn pick_unit(size: i64, n: usize, base: u64) -> (r: (u128, usize))
    requires
        1 <= n <= 9,
        2 <= base <= 1024,
    ensures
        r.1 == unit_index(size as int, n as nat, base as nat, 0),
        r.0 == pow(base as nat, r.1 as nat),
        r.1 < n,
{
    let mut i: usize = 0;
    let mut unit: u128 = 1;
    proof {
        lemma_pow_values();
    }
    loop
        invariant
            i < n <= 9,
            2 <= base <= 1024,
            unit == pow(base as nat, i as nat),
            unit_index(size as int, n as nat, base as nat, 0) == unit_index(size as int, n as nat, base as nat, i as nat),
            pow(1024, 9) == 1237940039285380274899124224,
        decreases n - i,
    {
        proof {
            lemma_pow_bound(base as nat, (i + 1) as nat);
            lemma_pow_mono(1024, (i + 1) as nat, 9);
            lemma_pow_mono(base as nat, 0, (i + 1) as nat);
            assert(pow(base as nat, (i + 1) as nat) == base * pow(base as nat, i as nat));
            let p = pow(base as nat, i as nat);
            assert(unit * base == base * p) by (nonlinear_arith)
                requires unit == p;
        }
        let next: u128 = unit * (base as u128);
        if size < 0 || (size as u128) < next {
            return (unit, i);
        }
        if i + 1 >= n {
            return (unit, i);
        }
        unit = next;
        i = i + 1;
    }
}

proof fn lemma_pow_mono(b: nat, e: nat, f: nat)
    requires
        b >= 1,
        e <= f,
    ensures
        pow(b, e) <= pow(b, f),
    decreases f,
{
    if e < f {
        lemma_pow_mono(b, e, (f - 1) as nat);
        let p = pow(b, (f - 1) as nat);
        assert(p <= b * p) by (nonlinear_arith)
            requires b >= 1, p >= 0;
    }
}

/// The name of the unit `1000` to the power `i + 1` (`kB` for `i == 0`).
pub open spec fn decimal_suffix(i: nat) -> Seq<char> {
    if i == 0 { seq!['k', 'B'] }
    else if i == 1 { seq!['M', 'B'] }
    else if i == 2 { seq!['G', 'B'] }
    else if i == 3 { seq!['T', 'B'] }
    else if i == 4 { seq!['P', 'B'] }
    else if i == 5 { seq!['E', 'B'] }
    else if i == 6 { seq!['Z', 'B'] }
    else { seq!['Y', 'B'] }
}

/// `decimal_suffix(i)` as a string.
pub fn decimal_suffix_text(i: usize) -> (s: String)
    ensures
        s@ == decimal_suffix(i as nat),
{
    let mut s = String::new();
    let c = if i == 0 { 'k' } else if i == 1 { 'M' } else if i == 2 { 'G' } else if i == 3 { 'T' }
        else if i == 4 { 'P' } else if i == 5 { 'E' } else if i == 6 { 'Z' } else { 'Y' };
    push_char(&mut s, c);
    push_char(&mut s, 'B');
    s
}

/// How `filesize.decimal` shows a size.
#[derive(Debug)]
pub enum SizeText {
    /// The whole text: `"1 byte"` or `"N bytes"`.
    Exact(String),
    /// `1000 * size / unit` to one decimal place, then `suffix`.
    Scaled { unit: u128, suffix: String },
}

/// The index of the unit `filesize.decimal` shows a size of 1000 or more
/// in: the first `i` with `size < 1000^(i + 2)`, at most the last.
pub open spec fn scaled_index(size: int, i: nat) -> nat
    decreases 7 - i,
{
    if i >= 7 || size < pow(1000, i + 2) {
        i
    } else {
        scaled_index(size, i + 1)
    }
}

/// `filesize.decimal(size)`: one byte, a count of bytes with thousands
/// separators under 1000, else the unit and its suffix to scale by.
pub open spec fn size_spec(size: i64, t: SizeText) -> bool {
    if size == 1 {
        t matches SizeText::Exact(s) && s@ == seq!['1', ' ', 'b', 'y', 't', 'e']
    } else if size < 1000 {
        t matches SizeText::Exact(s) && s@ == signed_grouped(size as int) + seq![' ', 'b', 'y', 't', 'e', 's']
    } else {
        let k = scaled_index(size as int, 0);
        t matches SizeText::Scaled { unit, suffix } && unit == pow(1000, k + 2) && suffix@ == decimal_suffix(k)
    }
}

proof fn lemma_scaled_index(size: int, i: nat, j: nat)
    requires
        j <= i < 8,
        pow(1000, i + 1) <= size,
        i == 7 || size < pow(1000, i + 2),
    ensures
        scaled_index(size, j) == i,
    decreases i - j,
{
    if j < i {
        lemma_pow_mono(1000, j + 2, i + 1);
        lemma_scaled_index(size, i, j + 1);
    }
}

/// The unit letters of `filesize.decimal`, from kilo up.
pub open spec fn unit_letters() -> Seq<char> {
    seq!['k', 'M', 'G', 'T', 'P', 'E', 'Z', 'Y']
}

/// A size of at least `1000^(i+1)` and below `1000^(i+2)` (or any size
/// from `1000^8` on, for the last) is shown in the `i`-th unit: kB, MB, GB,
/// TB, PB, EB, ZB, YB in turn; the unit is `1000^(i+2)` (the size scaled by
/// `1000 / unit`), so the number shown is at least 1 and, below the last
/// unit, under 1000.
pub proof fn law_filesize_units(size: i64, i: nat, t: SizeText)
    requires
        i < 8,
        pow(1000, i + 1) <= size,
        i == 7 || size < pow(1000, i + 2),
        size_spec(size, t),
    ensures
        t matches SizeText::Scaled { unit, suffix } && {
            &&& suffix@ == seq![unit_letters()[i as int], 'B']
            &&& unit == pow(1000, i + 2)
            &&& unit <= 1000 * size
            &&& (i < 7 ==> 1000 * size < 1000 * unit)
        },
{
    lemma_pow_mono(1000, 1, i + 1);
    reveal_with_fuel(pow, 2);
    assert(pow(1000, 1) == 1000);
    lemma_scaled_index(size as int, i, 0);
    assert(pow(1000, i + 2) == 1000 * pow(1000, i + 1));
}

/// The units' names differ from one another.
pub proof fn law_filesize_suffixes_distinct(i: nat, j: nat)
    requires
        i < 8,
        j < 8,
        i != j,
    ensures
        decimal_suffix(i) != decimal_suffix(j),
        decimal_suffix(i) == seq![unit_letters()[i as int], 'B'],
{
    assert(decimal_suffix(i)[0] != decimal_suffix(j)[0]);
}

/// `filesize.decimal(size)` as far as it needs no floating point.
pub fn filesize_decimal(size: i64) -> (t: SizeText)
    ensures
        size_spec(size, t),
{
    if size == 1 {
        let mut s = String::new();
        push_char(&mut s, '1');
        push_char(&mut s, ' ');
        push_char(&mut s, 'b');
        push_char(&mut s, 'y');
        push_char(&mut s, 't');
        push_char(&mut s, 'e');
        assert(s@ == seq!['1', ' ', 'b', 'y', 't', 'e']);
        return SizeText::Exact(s);
    }
    if size < 1000 {
        let mut s = String::new();
        push_signed_grouped(&mut s, size);
        push_char(&mut s, ' ');
        push_char(&mut s, 'b');
        push_char(&mut s, 'y');
        push_char(&mut s, 't');
        push_char(&mut s, 'e');
        push_char(&mut s, 's');
        assert(s@ == signed_grouped(size as int) + seq![' ', 'b', 'y', 't', 'e', 's']);
        return SizeText::Exact(s);
    }
    let mut i: usize = 0;
    let mut unit: u128 = 1_000_000;
    proof {
        lemma_pow_values();
    }
    loop
        invariant
            i <= 7,
            size >= 1000,
            unit == pow(1000, (i + 2) as nat),
            scaled_index(size as int, 0) == scaled_index(size as int, i as nat),
            pow(1000, 9) == 1_000_000_000_000_000_000_000_000_000,
        decreases 7 - i,
    {
        if i >= 7 || (size as u128) < unit {
            let suffix = decimal_suffix_text(i);
            return SizeText::Scaled { unit, suffix };
        }
        proof {
            lemma_pow_mono(1000, (i + 3) as nat, 9);
        }
        unit = unit * 1000;
        i = i + 1;
    }
}

/// The unit and suffix index a download's sizes are shown in: those of the
/// total (or of the completed count without a total), among nine suffixes in
/// steps of 1024 (`binary`) or 1000.
pub fn download_unit(completed: i64, total: Option<i64>, binary: bool) -> (r: (u128, usize))
    ensures
        ({
            let base: nat = if binary { 1024 } else { 1000 };
            let size = match total { Some(t) => t, None => completed };
            &&& r.1 == unit_index(size as int, 9, base, 0)
            &&& r.0 == pow(base, r.1 as nat)
        }),
{
    let size = match total {
        Some(t) => t,
        None => completed,
    };
    pick_unit(size, 9, if binary { 1024 } else { 1000 })
}

/// A download counted in bytes (unit 1): `"C/T bytes"` with thousands
/// separators, `"?"` without a total.
pub open spec fn download_bytes_spec(completed: i64, total: Option<i64>) -> Seq<char> {
    signed_grouped(completed as int) + seq!['/'] + match total {
        None => seq!['?'],
        Some(t) => signed_grouped(t as int),
    } + seq![' ', 'b', 'y', 't', 'e', 's']
}

/// `DownloadColumn.render`'s text when the unit is one byte.
pub fn download_bytes_text(completed: i64, total: Option<i64>) -> (s: String)
    ensures
        s@ == download_bytes_spec(completed, total),
{
    let mut s = String::new();
    push_signed_grouped(&mut s, completed);
    push_char(&mut s, '/');
    match total {
        None => push_char(&mut s, '?'),
        Some(t) => push_signed_grouped(&mut s, t),
    }
    push_char(&mut s, ' ');
    push_char(&mut s, 'b');
    push_char(&mut s, 'y');
    push_char(&mut s, 't');
    push_char(&mut s, 'e');
    push_char(&mut s, 's');
    assert(s@ == download_bytes_spec(completed, total));
    s
}

} // verus!
