//! `Measurement`, the least and most width a renderable takes, and the
//! parts of `ConsoleOptions` that computing with them needs.

use vstd::prelude::*;

verus! {

/// The least and the most width a renderable takes.
#[derive(Clone, Copy, PartialEq, Eq, Debug)]
pub struct Measurement {
    pub minimum: i64,
    pub maximum: i64,
}

/// The smaller of `a` and `b`.
pub open spec fn min_i(a: int, b: int) -> int {
    if a <= b { a } else { b }
}

/// The larger of `a` and `b`.
pub open spec fn max_i(a: int, b: int) -> int {
    if a >= b { a } else { b }
}

/// `normalize()`: both bounds at least 0, the minimum no more than the
/// maximum.
pub open spec fn normalize_spec(m: Measurement) -> Measurement {
    let minimum = max_i(min_i(m.minimum as int, m.maximum as int), 0);
    Measurement { minimum: minimum as i64, maximum: max_i(max_i(m.maximum as int, minimum), 0) as i64 }
}

/// `with_maximum(width)`: neither bound above `width`.
pub open spec fn with_maximum_spec(m: Measurement, width: i64) -> Measurement {
    Measurement { minimum: min_i(m.minimum as int, width as int) as i64, maximum: min_i(m.maximum as int, width as int) as i64 }
}

/// `with_minimum(width)`: neither bound below `width` (a negative width
/// counts as 0).
pub open spec fn with_minimum_spec(m: Measurement, width: i64) -> Measurement {
    let w = max_i(width as int, 0);
    Measurement { minimum: max_i(m.minimum as int, w) as i64, maximum: max_i(m.maximum as int, w) as i64 }
}

/// `clamp(min_width, max_width)`: the minimum first, then the maximum.
pub open spec fn clamp_spec(m: Measurement, min_width: Option<i64>, max_width: Option<i64>) -> Measurement {
    let a = match min_width {
        Some(w) => with_minimum_spec(m, w),
        None => m,
    };
    match max_width {
        Some(w) => with_maximum_spec(a, w),
        None => a,
    }
}

impl Measurement {
    /// `Measurement(minimum, maximum)`.
    pub fn new(minimum: i64, maximum: i64) -> (m: Measurement)
        ensures
            m.minimum == minimum,
            m.maximum == maximum,
    {
        Measurement { minimum, maximum }
    }

    /// `span`: `maximum - minimum`.
    pub fn span(&self) -> (s: i128)
        ensures
            s == self.maximum - self.minimum,
    {
        self.maximum as i128 - self.minimum as i128
    }

    /// `normalize()`.
    pub fn normalize(&self) -> (m: Measurement)
        ensures
            m == normalize_spec(*self),
    {
        let low = if self.minimum <= self.maximum { self.minimum } else { self.maximum };
        let minimum = if low >= 0 { low } else { 0 };
        let high = if self.maximum >= minimum { self.maximum } else { minimum };
        Measurement { minimum, maximum: if high >= 0 { high } else { 0 } }
    }

    /// `with_maximum(width)`.
    pub fn with_maximum(&self, width: i64) -> (m: Measurement)
        ensures
            m == with_maximum_spec(*self, width),
    {
        Measurement {
            minimum: if self.minimum <= width { self.minimum } else { width },
            maximum: if self.maximum <= width { self.maximum } else { width },
        }
    }

    /// `with_minimum(width)`.
    pub fn with_minimum(&self, width: i64) -> (m: Measurement)
        ensures
            m == with_minimum_spec(*self, width),
    {
        let w = if width >= 0 { width } else { 0 };
        Measurement {
            minimum: if self.minimum >= w { self.minimum } else { w },
            maximum: if self.maximum >= w { self.maximum } else { w },
        }
    }

    /// `clamp(min_width, max_width)`.
    pub fn clamp(&self, min_width: Option<i64>, max_width: Option<i64>) -> (m: Measurement)
        ensures
            m == clamp_spec(*self, min_width, max_width),
    {
        let mut m = *self;
        if let Some(w) = min_width {
            m = m.with_minimum(w);
        }
        if let Some(w) = max_width {
            m = m.with_maximum(w);
        }
        m
    }

    /// `measurement[index]`: the minimum at 0 (or -2), the maximum at 1
    /// (or -1); any other index is out of range.
    pub fn get(&self, index: isize) -> (r: Option<i64>)
        ensures
            r == (if index == 0 || index == -2 {
                Some(self.minimum)
            } else if index == 1 || index == -1 {
                Some(self.maximum)
            } else {
                None
            }),
    {
        if index == 0 || index == -2 {
            Some(self.minimum)
        } else if index == 1 || index == -1 {
            Some(self.maximum)
        } else {
            None
        }
    }

    /// The bounds as widths, negatives counted as 0.
    pub fn to_widths(&self) -> (w: (u64, u64))
        ensures
            w.0 == max_i(self.minimum as int, 0),
            w.1 == max_i(self.maximum as int, 0),
    {
        (
            if self.minimum >= 0 { self.minimum as u64 } else { 0 },
            if self.maximum >= 0 { self.maximum as u64 } else { 0 },
        )
    }
}

/// A normalized measurement has bounds at least 0, in order, and
/// normalizing it again changes nothing.
pub proof fn law_normalize(m: Measurement)
    ensures
        0 <= normalize_spec(m).minimum <= normalize_spec(m).maximum,
        normalize_spec(normalize_spec(m)) == normalize_spec(m),
{
}

/// After `with_maximum(width)` neither bound exceeds the width, and after
/// `with_minimum(width)` neither is below it (nor below 0); either applied
/// twice with the same width changes nothing more.
pub proof fn law_width_bounds(m: Measurement, width: i64)
    ensures
        with_maximum_spec(m, width).minimum <= width,
        with_maximum_spec(m, width).maximum <= width,
        with_minimum_spec(m, width).minimum >= max_i(width as int, 0),
        with_minimum_spec(m, width).maximum >= max_i(width as int, 0),
        with_maximum_spec(with_maximum_spec(m, width), width) == with_maximum_spec(m, width),
        with_minimum_spec(with_minimum_spec(m, width), width) == with_minimum_spec(m, width),
{
}

/// Clamping to `min_width <= max_width` with the minimum already in order
/// leaves the maximum within the widths given.
pub proof fn law_clamp_within(m: Measurement, min_width: i64, max_width: i64)
    requires
        0 <= min_width <= max_width,
    ensures
        min_width <= clamp_spec(m, Some(min_width), Some(max_width)).maximum <= max_width,
{
}

/// The options that sizing a render changes.
#[derive(Clone, Copy, PartialEq, Eq, Debug)]
pub struct OptionSizes {
    pub min_width: usize,
    pub max_width: usize,
    pub max_height: usize,
    pub height: Option<usize>,
}

/// One change `ConsoleOptions.update(**changes)` makes, by keyword.
#[derive(Clone, Copy, PartialEq, Eq, Debug)]
pub enum SizeChange {
    /// `width=`: both widths (negative as 0).
    Width(isize),
    MinWidth(usize),
    MaxWidth(usize),
    /// `height=`: the height, and the maximum height when given (negative
    /// as 0).
    Height(Option<isize>),
}

/// `width` as a width: negatives count as 0.
pub open spec fn width_of(width: isize) -> usize {
    if width < 0 { 0usize } else { width as usize }
}

/// One size change applied.
pub open spec fn apply_spec(o: OptionSizes, c: SizeChange) -> OptionSizes {
    match c {
        SizeChange::Width(w) => OptionSizes { min_width: width_of(w), max_width: width_of(w), ..o },
        SizeChange::MinWidth(w) => OptionSizes { min_width: w, ..o },
        SizeChange::MaxWidth(w) => OptionSizes { max_width: w, ..o },
        SizeChange::Height(h) => match h {
            Some(v) => OptionSizes { max_height: width_of(v), height: Some(width_of(v)), ..o },
            None => OptionSizes { height: None, ..o },
        },
    }
}

/// The changes applied in order.
pub open spec fn apply_all(o: OptionSizes, cs: Seq<SizeChange>) -> OptionSizes
    decreases cs.len(),
{
    if cs.len() == 0 {
        o
    } else {
        apply_spec(apply_all(o, cs.drop_last()), cs.last())
    }
}

impl OptionSizes {
    /// `update(**changes)` of the sizes: each change in the order given.
    pub fn update(&self, changes: &Vec<SizeChange>) -> (o: OptionSizes)
        ensures
            o == apply_all(*self, changes@),
    {
        let mut o = *self;
        let mut i: usize = 0;
        while i < changes.len()
            invariant
                i <= changes@.len(),
                o == apply_all(*self, changes@.take(i as int)),
            decreases changes@.len() - i,
        {
            proof {
                assert(changes@.take(i + 1 as int).drop_last() =~= changes@.take(i as int));
            }
            o = match changes[i] {
                SizeChange::Width(w) => {
                    let v = if w < 0 { 0 } else { w as usize };
                    OptionSizes { min_width: v, max_width: v, ..o }
                },
                SizeChange::MinWidth(w) => OptionSizes { min_width: w, ..o },
                SizeChange::MaxWidth(w) => OptionSizes { max_width: w, ..o },
                SizeChange::Height(h) => match h {
                    Some(v) => {
                        let v = if v < 0 { 0 } else { v as usize };
                        OptionSizes { max_height: v, height: Some(v), ..o }
                    },
                    None => OptionSizes { height: None, ..o },
                },
            };
            i = i + 1;
        }
        assert(changes@.take(changes@.len() as int) =~= changes@);
        o
    }

    /// `update_width(width)`: both widths.
    pub fn update_width(&self, width: isize) -> (o: OptionSizes)
        ensures
            o == apply_spec(*self, SizeChange::Width(width)),
    {
        let v = if width < 0 { 0 } else { width as usize };
        OptionSizes { min_width: v, max_width: v, ..*self }
    }

    /// `update_height(height)`: the height and the maximum height.
    pub fn update_height(&self, height: usize) -> (o: OptionSizes)
        ensures
            o == (OptionSizes { max_height: height, height: Some(height), ..*self }),
    {
        OptionSizes { max_height: height, height: Some(height), ..*self }
    }

    /// `reset_height()`: no height.
    pub fn reset_height(&self) -> (o: OptionSizes)
        ensures
            o == (OptionSizes { height: None, ..*self }),
    {
        OptionSizes { height: None, ..*self }
    }

    /// `update_dimensions(width, height)`.
    pub fn update_dimensions(&self, width: isize, height: usize) -> (o: OptionSizes)
        ensures
            o == (OptionSizes {
                min_width: width_of(width),
                max_width: width_of(width),
                max_height: height,
                height: Some(height),
            }),
    {
        let w = self.update_width(width);
        OptionSizes { max_height: height, height: Some(height), ..w }
    }
}

/// `ascii_only`: the encoding does not start with `utf`.
pub fn ascii_only(encoding: &str) -> (b: bool)
    ensures
        b == !(encoding@.len() >= 3 && encoding@[0] == 'u' && encoding@[1] == 't' && encoding@[2] == 'f'),
{
    let cs = crate::chars::chars_of(encoding);
    !(cs.len() >= 3 && cs[0] == 'u' && cs[1] == 't' && cs[2] == 'f')
}

/// Setting the dimensions is setting the width, then the height.
pub proof fn law_dimensions_are_width_then_height(o: OptionSizes, width: isize, height: usize)
    requires
        height <= isize::MAX,
    ensures
        apply_spec(apply_spec(o, SizeChange::Width(width)), SizeChange::Height(Some(height as isize)))
            == (OptionSizes { min_width: width_of(width), max_width: width_of(width), max_height: height, height: Some(height) }),
{
}

} // verus!
