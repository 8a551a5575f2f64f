//! Alignment: the spaces around each line of an aligned renderable, and
//! the blank lines above and below it.

use vstd::prelude::*;
use crate::numfmt::push_str;

verus! {

/// Horizontal alignment.
#[derive(Clone, Copy, PartialEq, Eq, Debug)]
pub enum Horizontal {
    Left,
    Center,
    Right,
}

/// Vertical alignment.
#[derive(Clone, Copy, PartialEq, Eq, Debug)]
pub enum Vertical {
    Top,
    Middle,
    Bottom,
}

/// The alignment a name gives.
pub open spec fn horizontal_of(s: Seq<char>) -> Option<Horizontal> {
    if s == "left"@ {
        Some(Horizontal::Left)
    } else if s == "center"@ {
        Some(Horizontal::Center)
    } else if s == "right"@ {
        Some(Horizontal::Right)
    } else {
        None
    }
}

/// The vertical alignment a name gives.
pub open spec fn vertical_of(s: Seq<char>) -> Option<Vertical> {
    if s == "top"@ {
        Some(Vertical::Top)
    } else if s == "middle"@ {
        Some(Vertical::Middle)
    } else if s == "bottom"@ {
        Some(Vertical::Bottom)
    } else {
        None
    }
}

fn same_text(a: &str, b: &str) -> (r: bool)
    ensures
        r == (a@ == b@),
{
    let x = crate::chars::chars_of(a);
    let y = crate::chars::chars_of(b);
    if x.len() != y.len() {
        return false;
    }
    let mut i: usize = 0;
    while i < x.len()
        invariant
            i <= x.len(),
            x.len() == y.len(),
            x@ == a@,
            y@ == b@,
            forall|j: int| 0 <= j < i ==> x@[j] == y@[j],
        decreases x.len() - i,
    {
        if x[i] != y[i] {
            return false;
        }
        i = i + 1;
    }
    assert(x@ =~= y@);
    true
}

/// The error for an unknown horizontal alignment `value`.
pub open spec fn horizontal_error(value: Seq<char>) -> Seq<char> {
    "invalid value for align, expected \"left\", \"center\", or \"right\" (not '"@ + value + "')"@
}

/// The error for an unknown vertical alignment `value`.
pub open spec fn vertical_error(value: Seq<char>) -> Seq<char> {
    "invalid value for vertical, expected \"top\", \"middle\", or \"bottom\" (not '"@ + value + "')"@
}

/// `align=`: `"left"`, `"center"` or `"right"`, else a `ValueError`.
pub fn parse_horizontal(s: &str) -> (r: Result<Horizontal, String>)
    ensures
        match horizontal_of(s@) {
            Some(h) => r == Ok::<Horizontal, String>(h),
            None => r matches Err(m) && m@ == horizontal_error(s@),
        },
{
    if same_text(s, "left") {
        Ok(Horizontal::Left)
    } else if same_text(s, "center") {
        Ok(Horizontal::Center)
    } else if same_text(s, "right") {
        Ok(Horizontal::Right)
    } else {
        let mut m = String::new();
        push_str(&mut m, "invalid value for align, expected \"left\", \"center\", or \"right\" (not '");
        push_str(&mut m, s);
        push_str(&mut m, "')");
        assert(m@ =~= horizontal_error(s@));
        Err(m)
    }
}

/// `vertical=`: none, or `"top"`, `"middle"` or `"bottom"`, else a
/// `ValueError`.
pub fn parse_vertical(s: Option<&str>) -> (r: Result<Option<Vertical>, String>)
    ensures
        match s {
            None => r == Ok::<Option<Vertical>, String>(None),
            Some(v) => match vertical_of(v@) {
                Some(x) => r == Ok::<Option<Vertical>, String>(Some(x)),
                None => r matches Err(m) && m@ == vertical_error(v@),
            },
        },
{
    match s {
        None => Ok(None),
        Some(v) => {
            if same_text(v, "top") {
                Ok(Some(Vertical::Top))
            } else if same_text(v, "middle") {
                Ok(Some(Vertical::Middle))
            } else if same_text(v, "bottom") {
                Ok(Some(Vertical::Bottom))
            } else {
                let mut m = String::new();
                push_str(&mut m, "invalid value for vertical, expected \"top\", \"middle\", or \"bottom\" (not '");
                push_str(&mut m, v);
                push_str(&mut m, "')");
                assert(m@ =~= vertical_error(v@));
                Err(m)
            }
        },
    }
}

/// Spaces before and after each line of an aligned renderable.
#[derive(Clone, Copy, PartialEq, Eq, Debug)]
pub struct RowPad {
    pub left: usize,
    pub right: usize,
}

/// `Align`'s spaces for lines `width` wide in `max_width` columns: none
/// without room to spare; else the spare room left of the line (right
/// alignment), split with the smaller half left (centering), or right of it
/// (left alignment), the room after the line only when padding.
pub open spec fn row_pad_spec(max_width: nat, width: nat, align: Horizontal, pad: bool) -> RowPad {
    if max_width <= width {
        RowPad { left: 0, right: 0 }
    } else {
        let excess = (max_width - width) as nat;
        match align {
            Horizontal::Left => RowPad { left: 0, right: if pad { excess as usize } else { 0 } },
            Horizontal::Center => RowPad {
                left: (excess / 2) as usize,
                right: if pad { (excess - excess / 2) as usize } else { 0 },
            },
            Horizontal::Right => RowPad { left: excess as usize, right: 0 },
        }
    }
}

/// The spaces around each line (see [`row_pad_spec`]).
pub fn row_pad(max_width: usize, width: usize, align: Horizontal, pad: bool) -> (p: RowPad)
    ensures
        p == row_pad_spec(max_width as nat, width as nat, align, pad),
{
    if max_width <= width {
        return RowPad { left: 0, right: 0 };
    }
    let excess = max_width - width;
    match align {
        Horizontal::Left => RowPad { left: 0, right: if pad { excess } else { 0 } },
        Horizontal::Center => RowPad { left: excess / 2, right: if pad { excess - excess / 2 } else { 0 } },
        Horizontal::Right => RowPad { left: excess, right: 0 },
    }
}

/// Blank lines above and below an aligned renderable.
#[derive(Clone, Copy, PartialEq, Eq, Debug)]
pub struct ColumnPad {
    pub top: usize,
    pub bottom: usize,
}

/// `Align`'s blank lines for `height` rendered lines in `total` lines:
/// none without a vertical alignment or a height; else the spare lines
/// (none when there are none) below (top), split with the smaller half
/// above (middle), or above (bottom).
pub open spec fn column_pad_spec(vertical: Option<Vertical>, total: Option<usize>, height: nat) -> ColumnPad {
    match (vertical, total) {
        (Some(v), Some(t)) => {
            let spare: int = t - height;
            match v {
                Vertical::Top => ColumnPad { top: 0, bottom: if spare > 0 { spare as usize } else { 0 } },
                Vertical::Middle => {
                    let top = spare / 2;
                    ColumnPad {
                        top: if top > 0 { top as usize } else { 0 },
                        bottom: if spare - top > 0 { (spare - top) as usize } else { 0 },
                    }
                },
                Vertical::Bottom => ColumnPad { top: if spare > 0 { spare as usize } else { 0 }, bottom: 0 },
            }
        },
        _ => ColumnPad { top: 0, bottom: 0 },
    }
}

/// The blank lines around an aligned renderable (see [`column_pad_spec`]).
pub fn column_pad(vertical: Option<Vertical>, total: Option<usize>, height: usize) -> (p: ColumnPad)
    ensures
        p == column_pad_spec(vertical, total, height as nat),
{
    match (vertical, total) {
        (Some(v), Some(t)) => {
            if t <= height {
                // No spare lines: a floor half of a non-positive number and
                // the rest are both at most 0.
                proof {
                    let spare: int = t - height;
                    assert(spare / 2 <= 0 && spare - spare / 2 <= 0) by (nonlinear_arith)
                        requires spare <= 0;
                }
                return ColumnPad { top: 0, bottom: 0 };
            }
            let spare = t - height;
            match v {
                Vertical::Top => ColumnPad { top: 0, bottom: spare },
                Vertical::Middle => ColumnPad { top: spare / 2, bottom: spare - spare / 2 },
                Vertical::Bottom => ColumnPad { top: spare, bottom: 0 },
            }
        },
        _ => ColumnPad { top: 0, bottom: 0 },
    }
}

/// `VerticalCenter`'s blank lines for `lines` rendered lines in `height`:
/// half the spare lines above (rounded down), the rest below.
pub fn vertical_center(height: usize, lines: usize) -> (p: ColumnPad)
    ensures
        lines >= height ==> p == (ColumnPad { top: 0, bottom: 0 }),
        lines < height ==> p == (ColumnPad {
            top: ((height - lines) / 2) as usize,
            bottom: ((height - lines) - (height - lines) / 2) as usize,
        }),
{
    if lines >= height {
        return ColumnPad { top: 0, bottom: 0 };
    }
    let spare = height - lines;
    ColumnPad { top: spare / 2, bottom: spare - spare / 2 }
}

/// Padded, an aligned line fills the width exactly; and with room to
/// spare, a vertically aligned renderable fills the height exactly.
pub proof fn law_alignment_fills(max_width: nat, width: nat, align: Horizontal, total: usize, height: nat, v: Vertical)
    requires
        width <= max_width <= usize::MAX,
        height <= total,
    ensures
        row_pad_spec(max_width, width, align, true).left + width + row_pad_spec(max_width, width, align, true).right
            == max_width,
        column_pad_spec(Some(v), Some(total), height).top + height
            + column_pad_spec(Some(v), Some(total), height).bottom == total,
{
}

} // verus!
