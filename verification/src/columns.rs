//! How `Columns` lays out its items: the order in which they fill the grid
//! (across the rows, or down the columns, with blanks completing the last
//! row) and how many columns fit the width.

use vstd::prelude::*;

verus! {

/// The number of grid cells for `n` items in rows of `k`: `n` rounded up to
/// a multiple of `k`.
pub open spec fn padded_len(n: nat, k: nat) -> nat {
    if n % k == 0 {
        n
    } else {
        (n + (k - n % k)) as nat
    }
}

/// Filling down the columns, the first item of column `c`: the columns take
/// `n / k` items each, and the first `n % k` columns one more.
pub open spec fn column_start(n: nat, k: nat, c: nat) -> nat {
    c * (n / k) + if c < n % k { c } else { n % k }
}

/// The item at grid position `p` (across the rows): across the rows it is
/// item `p`; down the columns it is the item of row `p / k` in column
/// `p % k`; past the items, a blank.
pub open spec fn order_at(n: nat, k: nat, column_first: bool, p: int) -> Option<usize> {
    if 0 <= p < n {
        if column_first {
            Some((column_start(n, k, (p % k as int) as nat) + p / k as int) as usize)
        } else {
            Some(p as usize)
        }
    } else {
        None
    }
}

proof fn lemma_start_bound(n: nat, k: nat, c: nat)
    requires
        k > 0,
        c <= k,
    ensures
        column_start(n, k, c) <= n,
        c < k ==> column_start(n, k, c + 1) == column_start(n, k, c) + n / k + (if c < n % k { 1int } else { 0 }),
{
    let q = n / k;
    let rem = n % k;
    assert(n == k * q + rem) by (nonlinear_arith)
        requires k > 0, q == n / k, rem == n % k;
    assert(c * q <= k * q) by (nonlinear_arith)
        requires c <= k, q >= 0;
    assert((c + 1) * q == c * q + q) by (nonlinear_arith);
}

proof fn lemma_position(n: nat, k: nat, p: int)
    requires
        k > 0,
        0 <= p < n,
    ensures
        ({
            let r = p / k as int;
            let c = p % k as int;
            &&& 0 <= c < k
            &&& 0 <= r
            &&& p == r * k + c
            &&& r <= n / k
            &&& (r == n / k ==> c < n % k)
        }),
{
    let r = p / k as int;
    let c = p % k as int;
    let q = n / k;
    let rem = n % k;
    assert(p == r * k + c && 0 <= c < k && r >= 0) by (nonlinear_arith)
        requires k > 0, p >= 0, r == p / k as int, c == p % k as int;
    assert(n == q * k + rem && 0 <= rem < k) by (nonlinear_arith)
        requires k > 0, q == n / k, rem == n % k;
    assert(r <= q) by (nonlinear_arith)
        requires p == r * k + c, n == q * k + rem, p < n, 0 <= c, c < k, 0 <= rem, rem < k, k > 0;
    if r == q {
        assert(c < rem) by (nonlinear_arith)
            requires p == r * k + c, n == q * k + rem, p < n, r == q;
    }
}

/// `iter_renderables`' order: the index of the item at each grid position,
/// `None` for the blanks completing the last row.
pub fn order(item_count: usize, column_count: usize, column_first: bool) -> (seq: Vec<Option<usize>>)
    requires
        column_count > 0,
        item_count + column_count <= usize::MAX,
    ensures
        seq@.len() == padded_len(item_count as nat, column_count as nat),
        forall|p: int| 0 <= p < seq@.len() ==> #[trigger] seq@[p] == order_at(item_count as nat, column_count as nat, column_first, p),
{
    let n = item_count;
    let k = column_count;
    let q = n / k;
    let rem = n % k;
    let mut seq: Vec<Option<usize>> = Vec::new();
    let mut p: usize = 0;
    while p < n
        invariant
            p <= n,
            n == item_count,
            k == column_count > 0,
            q == n / k,
            rem == n % k,
            n + k <= usize::MAX,
            seq@.len() == p,
            forall|j: int| 0 <= j < p ==> #[trigger] seq@[j] == order_at(n as nat, k as nat, column_first, j),
        decreases n - p,
    {
        if column_first {
            let r = p / k;
            let c = p % k;
            proof {
                lemma_position(n as nat, k as nat, p as int);
                lemma_start_bound(n as nat, k as nat, c as nat);
                lemma_start_bound(n as nat, k as nat, (c + 1) as nat);
                assert(c * q <= n) by (nonlinear_arith)
                    requires c < k, q == n / k, k > 0, n >= 0;
            }
            let start = c * q + if c < rem { c } else { rem };
            assert(start + r < n);
            seq.push(Some(start + r));
        } else {
            seq.push(Some(p));
        }
        p = p + 1;
    }
    if rem != 0 {
        let mut b: usize = 0;
        while b < k - rem
            invariant
                b <= k - rem,
                0 < rem < k,
                n == item_count,
                k == column_count,
                rem == n % k,
                seq@.len() == n + b,
                forall|j: int| 0 <= j < seq@.len() ==> #[trigger] seq@[j] == order_at(n as nat, k as nat, column_first, j),
            decreases k - rem - b,
        {
            seq.push(None);
            b = b + 1;
        }
    }
    seq
}

proof fn lemma_order_in_range(n: nat, k: nat, column_first: bool, p: int)
    requires
        k > 0,
        n <= usize::MAX,
        0 <= p < n,
    ensures
        order_at(n, k, column_first, p) is Some,
        order_at(n, k, column_first, p)->0 < n,
{
    if column_first {
        lemma_position(n, k, p);
        let r = p / k as int;
        let c = p % k as int;
        lemma_start_bound(n, k, c as nat);
        lemma_start_bound(n, k, (c + 1) as nat);
        assert(column_start(n, k, c as nat) + r < column_start(n, k, (c + 1) as nat));
    }
}

/// The width of the item at grid position `p` (0 for a blank).
pub open spec fn cell_width(widths: Seq<usize>, k: nat, column_first: bool, p: int) -> usize {
    match order_at(widths.len(), k, column_first, p) {
        None => 0,
        Some(i) => widths[i as int],
    }
}

/// The column widths after the item of width `w` lands in column `col`: a
/// new column the first time, else the wider of the two.
pub open spec fn widen(cw: Seq<usize>, col: int, w: usize) -> Seq<usize> {
    if col == cw.len() {
        cw.push(w)
    } else {
        cw.update(col, if w > cw[col] { w } else { cw[col] })
    }
}

/// The sum of `s`.
pub open spec fn total(s: Seq<usize>) -> int
    decreases s.len(),
{
    if s.len() == 0 {
        0
    } else {
        total(s.drop_last()) + s.last()
    }
}

/// The width of a row of columns `cw` with `pad` cells between neighbours.
pub open spec fn row_width(cw: Seq<usize>, pad: nat) -> int {
    total(cw) + pad * (cw.len() - 1)
}

/// Filling `k` columns from grid position `p` on, with column widths `cw`
/// so far: the number of columns at the first moment the row is wider than
/// `max_width`, or none if it never is.
pub open spec fn overflow_from(
    widths: Seq<usize>,
    k: nat,
    column_first: bool,
    pad: nat,
    max_width: nat,
    p: nat,
    cw: Seq<usize>,
) -> Option<nat>
    decreases padded_len(widths.len(), k) - p,
{
    if k == 0 || p >= padded_len(widths.len(), k) {
        None
    } else {
        let next = widen(cw, (p % k) as int, cell_width(widths, k, column_first, p as int));
        if row_width(next, pad) > max_width {
            Some(next.len())
        } else {
            overflow_from(widths, k, column_first, pad, max_width, p + 1, next)
        }
    }
}

/// `Columns`' search for a column count, from `k` down: at the first
/// overflow with `l` columns filled it tries `l - 1`, until `k` columns fit
/// or `k` is 1 or less.
pub open spec fn fitted_count(widths: Seq<usize>, column_first: bool, pad: nat, max_width: nat, k: nat) -> nat
    decreases k,
{
    if k <= 1 {
        k
    } else {
        match overflow_from(widths, k, column_first, pad, max_width, 0, Seq::empty()) {
            None => k,
            Some(l) => if 1 <= l <= k {
                fitted_count(widths, column_first, pad, max_width, (l - 1) as nat)
            } else {
                k
            },
        }
    }
}

/// The widest of `widths` (0 for none).
pub open spec fn widest(widths: Seq<usize>) -> usize
    decreases widths.len(),
{
    if widths.len() == 0 {
        0
    } else {
        let rest = widest(widths.drop_last());
        if widths.last() > rest { widths.last() } else { rest }
    }
}

/// The number of columns `Columns` lays its items out in: with a fixed
/// column `width`, as many as fit (at least one); else the search of
/// [`fitted_count`] from one column per item (at least one), over the items'
/// widths, all made the widest when `equal`. No items, no columns.
pub open spec fn column_count_spec(
    widths: Seq<usize>,
    equal: bool,
    column_first: bool,
    width: Option<usize>,
    pad: nat,
    max_width: nat,
) -> nat {
    if widths.len() == 0 {
        0
    } else {
        match width {
            Some(w) => if max_width / (w + pad) as nat >= 1 { max_width / (w + pad) as nat } else { 1 },
            None => {
                let ws = if equal { Seq::new(widths.len(), |i: int| widest(widths)) } else { widths };
                let k = fitted_count(ws, column_first, pad, max_width, widths.len());
                if k >= 1 { k } else { 1 }
            },
        }
    }
}

proof fn lemma_widest(widths: Seq<usize>)
    ensures
        forall|i: int| 0 <= i < widths.len() ==> #[trigger] widths[i] <= widest(widths),
        widths.len() > 0 ==> exists|i: int| 0 <= i < widths.len() && widths[i] == widest(widths),
    decreases widths.len(),
{
    if widths.len() > 0 {
        lemma_widest(widths.drop_last());
        assert forall|i: int| 0 <= i < widths.len() implies #[trigger] widths[i] <= widest(widths) by {
            if i < widths.len() - 1 {
                assert(widths[i] == widths.drop_last()[i]);
            }
        }
        if widths.len() > 1 && widths.last() <= widest(widths.drop_last()) {
            let j = choose|j: int| 0 <= j < widths.drop_last().len() && widths.drop_last()[j] == widest(widths.drop_last());
            assert(widths[j] == widest(widths));
        } else {
            assert(widths[widths.len() - 1] == widest(widths));
        }
    }
}

fn widest_of(widths: &Vec<usize>) -> (w: usize)
    ensures
        w == widest(widths@),
{
    let mut w: usize = 0;
    let mut i: usize = 0;
    proof {
        assert(widths@.take(0) =~= Seq::<usize>::empty());
    }
    while i < widths.len()
        invariant
            i <= widths@.len(),
            w == widest(widths@.take(i as int)),
        decreases widths.len() - i,
    {
        proof {
            assert(widths@.take(i as int + 1).drop_last() =~= widths@.take(i as int));
        }
        if widths[i] > w {
            w = widths[i];
        }
        i = i + 1;
    }
    assert(widths@.take(i as int) =~= widths@);
    w
}

proof fn lemma_total_bound(cw: Seq<usize>, bound: nat)
    requires
        forall|j: int| 0 <= j < cw.len() ==> #[trigger] cw[j] <= bound,
    ensures
        0 <= total(cw) <= cw.len() * bound,
    decreases cw.len(),
{
    if cw.len() > 0 {
        assert forall|j: int| 0 <= j < cw.drop_last().len() implies #[trigger] cw.drop_last()[j] <= bound by {
            assert(cw.drop_last()[j] == cw[j]);
        }
        lemma_total_bound(cw.drop_last(), bound);
        assert((cw.len() - 1) * bound + bound == cw.len() * bound) by (nonlinear_arith);
    }
}

proof fn lemma_total_update(cw: Seq<usize>, col: int, v: usize)
    requires
        0 <= col < cw.len(),
    ensures
        total(cw.update(col, v)) == total(cw) - cw[col] + v,
    decreases cw.len(),
{
    if col < cw.len() - 1 {
        assert(cw.update(col, v).drop_last() =~= cw.drop_last().update(col, v));
        lemma_total_update(cw.drop_last(), col, v);
    } else {
        assert(cw.update(col, v).drop_last() =~= cw.drop_last());
    }
}

/// How many of the `widths` fit side by side in `k` columns, as
/// [`fitted_count`] searches it.
fn fit_columns(widths: &Vec<usize>, column_first: bool, pad: usize, max_width: usize) -> (k: usize)
    requires
        2 * widths@.len() <= usize::MAX,
        widths@.len() * (widest(widths@) + pad) <= usize::MAX,
    ensures
        k == fitted_count(widths@, column_first, pad as nat, max_width as nat, widths@.len()),
        k <= widths@.len(),
{
    let n = widths.len();
    let ghost w_max = widest(widths@);
    proof {
        lemma_widest(widths@);
    }
    let mut k: usize = n;
    while k > 1
        invariant
            k <= n == widths@.len(),
            2 * n <= usize::MAX,
            n * (w_max + pad) <= usize::MAX,
            w_max == widest(widths@),
            forall|i: int| 0 <= i < widths@.len() ==> #[trigger] widths@[i] <= w_max,
            fitted_count(widths@, column_first, pad as nat, max_width as nat, k as nat)
                == fitted_count(widths@, column_first, pad as nat, max_width as nat, n as nat),
        ensures
            fitted_count(widths@, column_first, pad as nat, max_width as nat, k as nat) == k,
            k <= n,
            fitted_count(widths@, column_first, pad as nat, max_width as nat, k as nat)
                == fitted_count(widths@, column_first, pad as nat, max_width as nat, n as nat),
        decreases k,
    {
        let ord = order(n, k, column_first);
        let mut cw: Vec<usize> = Vec::new();
        let mut sum: usize = 0;
        let mut p: usize = 0;
        let mut next_k: usize = k;
        let mut fits = true;
        while p < ord.len()
            invariant_except_break
                fits,
                cw@.len() == (if p < k { p as int } else { k as int }),
                forall|j: int| 0 <= j < cw@.len() ==> #[trigger] cw@[j] <= w_max,
                sum == total(cw@),
            invariant
                1 < k <= n == widths@.len(),
                2 * n <= usize::MAX,
                n * (w_max + pad) <= usize::MAX,
                forall|i: int| 0 <= i < widths@.len() ==> #[trigger] widths@[i] <= w_max,
                ord@.len() == padded_len(n as nat, k as nat),
                forall|q: int| 0 <= q < ord@.len() ==> #[trigger] ord@[q] == order_at(n as nat, k as nat, column_first, q),
                p <= ord@.len(),
                fits ==> overflow_from(widths@, k as nat, column_first, pad as nat, max_width as nat, p as nat, cw@)
                    == overflow_from(widths@, k as nat, column_first, pad as nat, max_width as nat, 0, Seq::empty()),
                !fits ==> overflow_from(widths@, k as nat, column_first, pad as nat, max_width as nat, 0, Seq::empty())
                    == Some((next_k + 1) as nat) && next_k < k,
            ensures
                fits ==> overflow_from(widths@, k as nat, column_first, pad as nat, max_width as nat, 0, Seq::empty()) is None,
                !fits ==> overflow_from(widths@, k as nat, column_first, pad as nat, max_width as nat, 0, Seq::empty())
                    == Some((next_k + 1) as nat) && next_k < k,
            decreases ord@.len() - p,
        {
            proof {
                lemma_padded_len(n as nat, k as nat);
                if p < n {
                    lemma_order_in_range(n as nat, k as nat, column_first, p as int);
                }
            }
            let w: usize = match ord[p] {
                None => 0,
                Some(i) => widths[i],
            };
            let col = p % k;
            let ghost before = cw@;
            proof {
                assert(w <= w_max);
                assert(col < k);
                if p < k {
                    vstd::arithmetic::div_mod::lemma_small_mod(p as nat, k as nat);
                }
                lemma_total_bound(before, w_max as nat);
            }
            if col == cw.len() {
                proof {
                    assert(before.len() < k);
                    assert(before.len() * w_max + w_max <= n * (w_max + pad)) by (nonlinear_arith)
                        requires before.len() < k, k <= n, w_max >= 0, pad >= 0;
                }
                cw.push(w);
                sum = sum + w;
                proof {
                    assert(cw@.drop_last() =~= before);
                }
            } else {
                let old_w = cw[col];
                let new_w = if w > old_w { w } else { old_w };
                proof {
                    lemma_total_update(before, col as int, new_w);
                    lemma_total_update(before, col as int, 0);
                    lemma_total_bound(before.update(col as int, 0), w_max as nat);
                    lemma_total_bound(before.update(col as int, new_w), w_max as nat);
                    assert(before.len() * w_max <= n * (w_max + pad)) by (nonlinear_arith)
                        requires before.len() <= k, k <= n, w_max >= 0, pad >= 0;
                }
                cw.set(col, new_w);
                sum = sum - old_w + new_w;
            }
            proof {
                assert(cw@ == widen(before, (p % k) as int, cell_width(widths@, k as nat, column_first, p as int)));
                lemma_total_bound(cw@, w_max as nat);
                assert(cw@.len() <= n);
                assert(cw@.len() * w_max + pad * (cw@.len() - 1) <= n * (w_max + pad)) by (nonlinear_arith)
                    requires cw@.len() <= n, cw@.len() >= 1, w_max >= 0, pad >= 0;
            }
            let row = sum + pad * (cw.len() - 1);
            if row > max_width {
                next_k = cw.len() - 1;
                fits = false;
                break;
            }
            p = p + 1;
        }
        if fits {
            break;
        }
        k = next_k;
    }
    k
}

proof fn lemma_padded_len(n: nat, k: nat)
    requires
        k > 0,
    ensures
        n <= padded_len(n, k) < n + k,
{
}

/// The number of columns `Columns` lays out `widths` in (see
/// [`column_count_spec`]); `left` and `right` are the cell padding, of
/// which the wider separates neighbours.
pub fn column_count(
    widths: &Vec<usize>,
    equal: bool,
    column_first: bool,
    width: Option<usize>,
    left: usize,
    right: usize,
    max_width: usize,
) -> (k: usize)
    requires
        2 * widths@.len() <= usize::MAX,
        widths@.len() * (widest(widths@) + (if left > right { left } else { right })) <= usize::MAX,
        width matches Some(w) ==> 0 < w + (if left > right { left } else { right }) <= usize::MAX,
    ensures
        k == column_count_spec(widths@, equal, column_first, width,
            (if left > right { left } else { right }) as nat, max_width as nat),
        widths@.len() > 0 ==> 1 <= k,
        width is None ==> k <= widths@.len(),
{
    let pad = if left > right { left } else { right };
    let n = widths.len();
    if n == 0 {
        return 0;
    }
    match width {
        Some(w) => {
            let k = max_width / (w + pad);
            if k >= 1 { k } else { 1 }
        },
        None => {
            let top = widest_of(widths);
            let ws: Vec<usize> = if equal {
                let mut v: Vec<usize> = Vec::new();
                let mut i: usize = 0;
                while i < n
                    invariant
                        i <= n,
                        v@.len() == i,
                        forall|j: int| 0 <= j < i ==> #[trigger] v@[j] == top,
                    decreases n - i,
                {
                    v.push(top);
                    i = i + 1;
                }
                proof {
                    assert(v@ =~= Seq::new(n as nat, |i: int| widest(widths@)));
                    lemma_widest(v@);
                    lemma_widest(widths@);
                    if widest(v@) > top {
                        let j = choose|j: int| 0 <= j < v@.len() && v@[j] == widest(v@);
                    }
                    assert(widest(v@) <= top);
                }
                v
            } else {
                widths.clone()
            };
            proof {
                assert(ws@.len() * (widest(ws@) + pad) <= n * (widest(widths@) + pad)) by (nonlinear_arith)
                    requires ws@.len() == n, widest(ws@) <= widest(widths@);
            }
            let k = fit_columns(&ws, column_first, pad, max_width);
            if k >= 1 { k } else { 1 }
        },
    }
}

proof fn lemma_overflow_len(
    widths: Seq<usize>,
    k: nat,
    column_first: bool,
    pad: nat,
    max_width: nat,
    p: nat,
    cw: Seq<usize>,
)
    requires
        k > 0,
        cw.len() == (if p < k { p } else { k }),
    ensures
        overflow_from(widths, k, column_first, pad, max_width, p, cw) matches Some(l) ==> 1 <= l <= k,
    decreases padded_len(widths.len(), k) - p,
{
    if p < padded_len(widths.len(), k) {
        if p < k {
            vstd::arithmetic::div_mod::lemma_small_mod(p, k);
        }
        let next = widen(cw, (p % k) as int, cell_width(widths, k, column_first, p as int));
        assert(next.len() == (if p + 1 < k { p + 1 } else { k }));
        lemma_overflow_len(widths, k, column_first, pad, max_width, p + 1, next);
    }
}

/// The column count the search settles on is never more than it started
/// from, and when it is more than one, every row it fills fits the width.
pub proof fn law_fitted_columns_fit(widths: Seq<usize>, column_first: bool, pad: nat, max_width: nat, k: nat)
    ensures
        fitted_count(widths, column_first, pad, max_width, k) <= k,
        fitted_count(widths, column_first, pad, max_width, k) > 1 ==> overflow_from(
            widths,
            fitted_count(widths, column_first, pad, max_width, k),
            column_first,
            pad,
            max_width,
            0,
            Seq::empty(),
        ) is None,
    decreases k,
{
    if k > 1 {
        lemma_overflow_len(widths, k, column_first, pad, max_width, 0, Seq::empty());
        match overflow_from(widths, k, column_first, pad, max_width, 0, Seq::empty()) {
            None => {},
            Some(l) => {
                law_fitted_columns_fit(widths, column_first, pad, max_width, (l - 1) as nat);
            },
        }
    }
}

/// The rows of the grid `Columns` fills: the order cut into rows of
/// `column_count`, each reversed when laid out right to left.
pub fn grid_rows(item_count: usize, column_count: usize, column_first: bool, right_to_left: bool) -> (rows: Vec<Vec<Option<usize>>>)
    requires
        column_count > 0,
        item_count + column_count <= usize::MAX,
    ensures
        rows@.len() * column_count == padded_len(item_count as nat, column_count as nat),
        forall|r: int| 0 <= r < rows@.len() ==> (#[trigger] rows@[r])@.len() == column_count,
        forall|r: int, c: int| 0 <= r < rows@.len() && 0 <= c < column_count ==> (#[trigger] rows@[r]@[c])
            == order_at(item_count as nat, column_count as nat, column_first,
                r * column_count + (if right_to_left { column_count - 1 - c } else { c })),
{
    let ord = order(item_count, column_count, column_first);
    let k = column_count;
    proof {
        lemma_padded_multiple(item_count as nat, k as nat);
    }
    let mut rows: Vec<Vec<Option<usize>>> = Vec::new();
    let mut start: usize = 0;
    assert(ord@.len() <= usize::MAX);
    while start < ord.len()
        invariant
            k == column_count > 0,
            ord@.len() == padded_len(item_count as nat, k as nat),
            ord@.len() % (k as nat) == 0,
            forall|q: int| 0 <= q < ord@.len() ==> #[trigger] ord@[q] == order_at(item_count as nat, k as nat, column_first, q),
            start <= ord@.len() <= usize::MAX,
            start == rows@.len() * k,
            forall|r: int| 0 <= r < rows@.len() ==> (#[trigger] rows@[r])@.len() == k,
            forall|r: int, c: int| 0 <= r < rows@.len() && 0 <= c < k ==> (#[trigger] rows@[r]@[c])
                == order_at(item_count as nat, k as nat, column_first,
                    r * k + (if right_to_left { k - 1 - c } else { c })),
        decreases ord@.len() - start,
    {
        proof {
            assert(start + k <= ord@.len()) by (nonlinear_arith)
                requires start < ord@.len(), start == rows@.len() * k, ord@.len() % (k as nat) == 0, k > 0;
        }
        let mut row: Vec<Option<usize>> = Vec::new();
        let mut c: usize = 0;
        while c < k
            invariant
                k == column_count > 0,
                start + k <= ord@.len() <= usize::MAX,
                forall|q: int| 0 <= q < ord@.len() ==> #[trigger] ord@[q] == order_at(item_count as nat, k as nat, column_first, q),
                c <= k,
                row@.len() == c,
                forall|j: int| 0 <= j < c ==> #[trigger] row@[j] == order_at(item_count as nat, k as nat, column_first,
                    start + (if right_to_left { k - 1 - j } else { j })),
            decreases k - c,
        {
            let at = if right_to_left { start + (k - 1 - c) } else { start + c };
            row.push(ord[at]);
            c = c + 1;
        }
        let ghost before = rows@;
        rows.push(row);
        proof {
            assert forall|r: int, j: int| 0 <= r < rows@.len() && 0 <= j < k implies (#[trigger] rows@[r]@[j])
                == order_at(item_count as nat, k as nat, column_first,
                    r * k + (if right_to_left { k - 1 - j } else { j })) by {
                if r < before.len() {
                    assert(rows@[r] == before[r]);
                } else {
                    assert(r == before.len());
                    assert(r * k == start);
                }
            }
            assert((rows@.len() as int) * (k as int) == before.len() * k + k) by (nonlinear_arith)
                requires rows@.len() == before.len() + 1;
        }
        start = start + k;
    }
    rows
}

proof fn lemma_padded_multiple(n: nat, k: nat)
    requires
        k > 0,
    ensures
        padded_len(n, k) % k == 0,
{
    let ni = n as int;
    let ki = k as int;
    let q = ni / ki;
    let r = ni % ki;
    assert(ni == ki * q + r && 0 <= r < ki && q >= 0) by (nonlinear_arith)
        requires ki > 0, ni >= 0, q == ni / ki, r == ni % ki;
    if r != 0 {
        assert(ni + (ki - r) == (q + 1) * ki) by (nonlinear_arith)
            requires ni == ki * q + r;
        vstd::arithmetic::div_mod::lemma_mod_multiples_basic(q + 1, ki);
    } else {
        assert(ni == q * ki) by (nonlinear_arith)
            requires ni == ki * q + r, r == 0;
        vstd::arithmetic::div_mod::lemma_mod_multiples_basic(q, ki);
    }
}

/// Every item has exactly one place in the grid: positions before the
/// blanks name items, and two positions never name the same item.
pub proof fn law_order_is_permutation(n: nat, k: nat, column_first: bool, p1: int, p2: int)
    requires
        k > 0,
        n <= usize::MAX,
        0 <= p1 < n,
        0 <= p2 < n,
        p1 != p2,
    ensures
        order_at(n, k, column_first, p1) is Some,
        order_at(n, k, column_first, p1)->0 < n,
        order_at(n, k, column_first, p1) != order_at(n, k, column_first, p2),
{
    if column_first {
        lemma_position(n, k, p1);
        lemma_position(n, k, p2);
        let r1 = p1 / k as int;
        let c1 = p1 % k as int;
        let r2 = p2 / k as int;
        let c2 = p2 % k as int;
        lemma_start_bound(n, k, c1 as nat);
        lemma_start_bound(n, k, c2 as nat);
        lemma_start_bound(n, k, (c1 + 1) as nat);
        lemma_start_bound(n, k, (c2 + 1) as nat);
        let s1 = column_start(n, k, c1 as nat);
        let s2 = column_start(n, k, c2 as nat);
        // Each item of column c lies in [start(c), start(c + 1)).
        assert(s1 + r1 < column_start(n, k, (c1 + 1) as nat));
        assert(s2 + r2 < column_start(n, k, (c2 + 1) as nat));
        if c1 < c2 {
            lemma_start_mono(n, k, (c1 + 1) as nat, c2 as nat);
        } else if c2 < c1 {
            lemma_start_mono(n, k, (c2 + 1) as nat, c1 as nat);
        } else {
            assert(r1 != r2) by (nonlinear_arith)
                requires p1 == r1 * k + c1, p2 == r2 * k + c2, c1 == c2, p1 != p2;
        }
        assert(s1 + r1 != s2 + r2);
        assert(s1 + r1 < n && s2 + r2 < n);
    }
}

proof fn lemma_start_mono(n: nat, k: nat, a: nat, b: nat)
    requires
        k > 0,
        a <= b <= k,
    ensures
        column_start(n, k, a) <= column_start(n, k, b),
    decreases b - a,
{
    if a < b {
        lemma_start_mono(n, k, a, (b - 1) as nat);
        lemma_start_bound(n, k, (b - 1) as nat);
    }
}

} // verus!
