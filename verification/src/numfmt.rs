//! Decimal text of integers: plain, with thousands separators, zero-padded
//! and right-aligned, as Python's `str` and `format` write them.

use vstd::prelude::*;
use crate::chars::push_char;

verus! {

/// The ASCII digit for `d` (0 to 9).
pub open spec fn digit_char(d: nat) -> char {
    if d == 0 { '0' }
    else if d == 1 { '1' }
    else if d == 2 { '2' }
    else if d == 3 { '3' }
    else if d == 4 { '4' }
    else if d == 5 { '5' }
    else if d == 6 { '6' }
    else if d == 7 { '7' }
    else if d == 8 { '8' }
    else { '9' }
}

/// Whether `c` is an ASCII digit.
pub open spec fn is_digit(c: char) -> bool {
    '0' <= c && c <= '9'
}

/// Every character of `s` is an ASCII digit.
pub open spec fn all_digits(s: Seq<char>) -> bool {
    forall|i: int| 0 <= i < s.len() ==> is_digit(#[trigger] s[i])
}

/// The number that decimal digits `s` read as (0 for none).
pub open spec fn read_decimal(s: Seq<char>) -> int
    decreases s.len(),
{
    if s.len() == 0 {
        0
    } else {
        read_decimal(s.drop_last()) * 10 + (s.last() as int - '0' as int)
    }
}

proof fn lemma_digit_char(d: nat)
    requires
        d < 10,
    ensures
        is_digit(digit_char(d)),
        digit_char(d) as int - '0' as int == d,
{
}

/// `decimal(n)` is digits that read back as `n`, with no leading zero.
pub proof fn lemma_decimal_reads_back(n: nat)
    ensures
        decimal(n).len() >= 1,
        all_digits(decimal(n)),
        read_decimal(decimal(n)) == n,
        n > 0 ==> decimal(n)[0] != '0',
        n < 10 ==> decimal(n).len() == 1,
        n >= 10 ==> decimal(n).len() >= 2,
    decreases n,
{
    if n < 10 {
        lemma_digit_char(n);
        assert(seq![digit_char(n)].drop_last() =~= Seq::<char>::empty());
        assert(read_decimal(Seq::<char>::empty()) == 0);
        assert(read_decimal(seq![digit_char(n)]) == n);
    } else {
        lemma_decimal_reads_back(n / 10);
        lemma_digit_char(n % 10);
        let d = decimal(n / 10);
        assert(decimal(n) == d.push(digit_char(n % 10)));
        assert(d.push(digit_char(n % 10)).drop_last() =~= d);
        assert forall|i: int| 0 <= i < decimal(n).len() implies is_digit(#[trigger] decimal(n)[i]) by {
            if i < d.len() {
                assert(decimal(n)[i] == d[i]);
            }
        }
        assert(decimal(n)[0] == d[0]);
        assert(read_decimal(d.push(digit_char(n % 10))) == read_decimal(d) * 10 + (n % 10));
        assert((n / 10) * 10 + n % 10 == n);
    }
}

/// `two_digits(n)` for `n < 100` is two digits that read back as `n`.
pub proof fn lemma_two_digits_read_back(n: nat)
    requires
        n < 100,
    ensures
        two_digits(n).len() == 2,
        all_digits(two_digits(n)),
        read_decimal(two_digits(n)) == n,
{
    if n < 10 {
        lemma_digit_char(n);
        let t = seq!['0', digit_char(n)];
        assert(t.drop_last() =~= seq!['0']);
        assert(seq!['0'].drop_last() =~= Seq::<char>::empty());
        assert(read_decimal(Seq::<char>::empty()) == 0);
        assert(read_decimal(seq!['0']) == 0);
        assert(read_decimal(t) == n);
    } else {
        lemma_decimal_reads_back(n);
        lemma_decimal_reads_back(n / 10);
    }
}

/// The decimal digits of `n`, most significant first, with no leading zero.
pub open spec fn decimal(n: nat) -> Seq<char>
    decreases n,
{
    if n < 10 {
        seq![digit_char(n)]
    } else {
        decimal(n / 10).push(digit_char(n % 10))
    }
}

/// `str(i)`: a minus sign before the digits of a negative number.
pub open spec fn signed_decimal(i: int) -> Seq<char> {
    if i < 0 {
        seq!['-'] + decimal((-i) as nat)
    } else {
        decimal(i as nat)
    }
}

/// The last three digits of `n`, zero-padded (`n % 1000` as `03d`).
pub open spec fn three_digits(n: nat) -> Seq<char> {
    seq![digit_char((n / 100) % 10), digit_char((n / 10) % 10), digit_char(n % 10)]
}

/// `format(n, ",")` for `n >= 0`: digits in groups of three, separated by commas.
pub open spec fn grouped(n: nat) -> Seq<char>
    decreases n,
{
    if n < 1000 {
        decimal(n)
    } else {
        grouped(n / 1000) + seq![','] + three_digits(n % 1000)
    }
}

/// `format(i, ",")`: grouped digits, with a minus sign before a negative number.
pub open spec fn signed_grouped(i: int) -> Seq<char> {
    if i < 0 {
        seq!['-'] + grouped((-i) as nat)
    } else {
        grouped(i as nat)
    }
}

/// `format(n, "02d")` for `n >= 0`: at least two digits.
pub open spec fn two_digits(n: nat) -> Seq<char> {
    if n < 10 {
        seq!['0', digit_char(n)]
    } else {
        decimal(n)
    }
}

/// `s` right-aligned in `width` columns: spaces before it up to the width.
pub open spec fn right_aligned(s: Seq<char>, width: nat) -> Seq<char> {
    if s.len() >= width {
        s
    } else {
        Seq::new((width - s.len()) as nat, |i: int| ' ') + s
    }
}

fn digit_of(d: u64) -> (c: char)
    requires
        d < 10,
    ensures
        c == digit_char(d as nat),
{
    if d == 0 { '0' }
    else if d == 1 { '1' }
    else if d == 2 { '2' }
    else if d == 3 { '3' }
    else if d == 4 { '4' }
    else if d == 5 { '5' }
    else if d == 6 { '6' }
    else if d == 7 { '7' }
    else if d == 8 { '8' }
    else { '9' }
}

/// Appends the decimal digits of `n` to `out`.
pub fn push_decimal(out: &mut String, n: u64)
    ensures
        final(out)@ == old(out)@ + decimal(n as nat),
    decreases n,
{
    if n < 10 {
        push_char(out, digit_of(n));
        assert(old(out)@.push(digit_char(n as nat)) == old(out)@ + decimal(n as nat));
    } else {
        push_decimal(out, n / 10);
        push_char(out, digit_of(n % 10));
        assert(old(out)@ + decimal((n / 10) as nat) + seq![digit_char((n % 10) as nat)]
            == old(out)@ + decimal(n as nat));
    }
}

/// `str(n)` for an unsigned number.
pub fn decimal_string(n: u64) -> (s: String)
    ensures
        s@ == decimal(n as nat),
{
    let mut s = String::new();
    push_decimal(&mut s, n);
    assert(Seq::<char>::empty() + decimal(n as nat) == decimal(n as nat));
    s
}

/// The magnitude of `i`, which fits in a `u64` for every `i64`.
fn magnitude(i: i64) -> (m: u64)
    ensures
        m as int == if i < 0 { -i } else { i as int },
{
    if i < 0 {
        if i == i64::MIN {
            9_223_372_036_854_775_808u64
        } else {
            (-i) as u64
        }
    } else {
        i as u64
    }
}

/// Appends `str(i)` to `out`.
pub fn push_signed_decimal(out: &mut String, i: i64)
    ensures
        final(out)@ == old(out)@ + signed_decimal(i as int),
{
    let m = magnitude(i);
    if i < 0 {
        push_char(out, '-');
        push_decimal(out, m);
        assert(old(out)@.push('-') + decimal(m as nat) == old(out)@ + (seq!['-'] + decimal(m as nat)));
    } else {
        push_decimal(out, m);
    }
}

/// `str(i)` for a signed number.
pub fn signed_decimal_string(i: i64) -> (s: String)
    ensures
        s@ == signed_decimal(i as int),
{
    let mut s = String::new();
    push_signed_decimal(&mut s, i);
    assert(Seq::<char>::empty() + signed_decimal(i as int) == signed_decimal(i as int));
    s
}

/// Appends `format(n, ",")` to `out`.
pub fn push_grouped(out: &mut String, n: u64)
    ensures
        final(out)@ == old(out)@ + grouped(n as nat),
    decreases n,
{
    if n < 1000 {
        push_decimal(out, n);
    } else {
        push_grouped(out, n / 1000);
        push_char(out, ',');
        let r = n % 1000;
        push_char(out, digit_of((r / 100) % 10));
        push_char(out, digit_of((r / 10) % 10));
        push_char(out, digit_of(r % 10));
        assert(old(out)@ + grouped((n / 1000) as nat) + seq![','] + seq![
            digit_char(((r / 100) % 10) as nat),
            digit_char(((r / 10) % 10) as nat),
            digit_char((r % 10) as nat),
        ] == old(out)@ + grouped(n as nat));
    }
}

/// Appends `format(i, ",")` to `out`.
pub fn push_signed_grouped(out: &mut String, i: i64)
    ensures
        final(out)@ == old(out)@ + signed_grouped(i as int),
{
    let m = magnitude(i);
    if i < 0 {
        push_char(out, '-');
        push_grouped(out, m);
        assert(old(out)@.push('-') + grouped(m as nat) == old(out)@ + (seq!['-'] + grouped(m as nat)));
    } else {
        push_grouped(out, m);
    }
}

/// Appends `format(n, "02d")` to `out`.
pub fn push_two_digits(out: &mut String, n: u64)
    ensures
        final(out)@ == old(out)@ + two_digits(n as nat),
{
    if n < 10 {
        push_char(out, '0');
        push_char(out, digit_of(n));
        assert(old(out)@.push('0').push(digit_char(n as nat)) == old(out)@ + two_digits(n as nat));
    } else {
        push_decimal(out, n);
    }
}

/// Appends the characters of `s` to `out`.
pub fn push_str(out: &mut String, s: &str)
    ensures
        final(out)@ == old(out)@ + s@,
{
    let cs = crate::chars::chars_of(s);
    let mut i: usize = 0;
    while i < cs.len()
        invariant
            i <= cs.len(),
            cs@ == s@,
            out@ == old(out)@ + cs@.take(i as int),
        decreases cs.len() - i,
    {
        push_char(out, cs[i]);
        i = i + 1;
        assert(out@ == old(out)@ + cs@.take(i as int));
    }
    assert(cs@.take(cs.len() as int) == cs@);
}

/// Appends `n` spaces to `out`.
pub fn push_spaces(out: &mut String, n: usize)
    ensures
        final(out)@ == old(out)@ + Seq::new(n as nat, |i: int| ' '),
{
    let mut i: usize = 0;
    while i < n
        invariant
            i <= n,
            out@ == old(out)@ + Seq::new(i as nat, |j: int| ' '),
        decreases n - i,
    {
        push_char(out, ' ');
        i = i + 1;
        assert(out@ == old(out)@ + Seq::new(i as nat, |j: int| ' '));
    }
}

/// `format(i, f"{width}d")`: the number right-aligned in `width` columns.
pub fn right_aligned_decimal(i: i64, width: usize) -> (s: String)
    ensures
        s@ == right_aligned(signed_decimal(i as int), width as nat),
{
    let digits = signed_decimal_string(i);
    let n = crate::chars::chars_of(digits.as_str()).len();
    if n >= width {
        digits
    } else {
        let mut s = String::new();
        push_spaces(&mut s, width - n);
        let ghost pad = s@;
        push_str(&mut s, digits.as_str());
        assert(s@ == Seq::<char>::empty() + Seq::new((width - n) as nat, |j: int| ' ') + digits@);
        assert(s@ == Seq::new((width - n) as nat, |j: int| ' ') + digits@);
        s
    }
}

} // verus!
