//! `Padding.unpack`: one, two or four sides, CSS style, each within the
//! padding limit.

use vstd::prelude::*;

verus! {

/// Why padding was refused.
#[derive(Clone, Copy, PartialEq, Eq, Debug)]
pub enum PadError {
    /// A side below zero or above the limit (the value given).
    OutOfRange(i128),
    /// Neither one, two nor four sides (how many were given).
    WrongCount(usize),
}

/// Padding: top, right, bottom, left.
pub type Pad = (usize, usize, usize, usize);

/// One side, checked against `max_padding`.
pub open spec fn side_spec(number: i128, max_padding: usize) -> Result<usize, PadError> {
    if 0 <= number <= max_padding {
        Ok(number as usize)
    } else {
        Err(PadError::OutOfRange(number))
    }
}

/// One side of padding: a whole number from 0 to `max_padding`.
pub fn side(number: i128, max_padding: usize) -> (r: Result<usize, PadError>)
    ensures
        r == side_spec(number, max_padding),
{
    if 0 <= number && number <= max_padding as i128 {
        Ok(number as usize)
    } else {
        Err(PadError::OutOfRange(number))
    }
}

/// The padding `sides` unpack to: one side for all four; two for
/// vertical then horizontal; four for top, right, bottom, left. The first
/// side out of range, in the order given, is the error; any other count of
/// sides is refused before any side is read.
pub open spec fn unpack_spec(sides: Seq<i128>, max_padding: usize) -> Result<Pad, PadError> {
    if sides.len() == 1 {
        match side_spec(sides[0], max_padding) {
            Ok(a) => Ok((a, a, a, a)),
            Err(e) => Err(e),
        }
    } else if sides.len() == 2 {
        match side_spec(sides[0], max_padding) {
            Err(e) => Err(e),
            Ok(v) => match side_spec(sides[1], max_padding) {
                Err(e) => Err(e),
                Ok(h) => Ok((v, h, v, h)),
            },
        }
    } else if sides.len() == 4 {
        match side_spec(sides[0], max_padding) {
            Err(e) => Err(e),
            Ok(t) => match side_spec(sides[1], max_padding) {
                Err(e) => Err(e),
                Ok(r) => match side_spec(sides[2], max_padding) {
                    Err(e) => Err(e),
                    Ok(b) => match side_spec(sides[3], max_padding) {
                        Err(e) => Err(e),
                        Ok(l) => Ok((t, r, b, l)),
                    },
                },
            },
        }
    } else {
        Err(PadError::WrongCount(sides.len() as usize))
    }
}

/// `Padding.unpack` of the sides given (a single number is one side).
pub fn unpack(sides: &Vec<i128>, max_padding: usize) -> (r: Result<Pad, PadError>)
    ensures
        r == unpack_spec(sides@, max_padding),
        r matches Ok((t, rt, b, l)) ==> t <= max_padding && rt <= max_padding && b <= max_padding && l <= max_padding,
{
    let n = sides.len();
    if n == 1 {
        let a = side(sides[0], max_padding)?;
        Ok((a, a, a, a))
    } else if n == 2 {
        let v = side(sides[0], max_padding)?;
        let h = side(sides[1], max_padding)?;
        Ok((v, h, v, h))
    } else if n == 4 {
        let t = side(sides[0], max_padding)?;
        let r = side(sides[1], max_padding)?;
        let b = side(sides[2], max_padding)?;
        let l = side(sides[3], max_padding)?;
        Ok((t, r, b, l))
    } else {
        Err(PadError::WrongCount(n))
    }
}

/// Unpacking what a padding unpacked to gives it back: four sides within
/// the limit are a fixed point.
pub proof fn law_unpack_round_trip(pad: Pad, max_padding: usize)
    requires
        pad.0 <= max_padding,
        pad.1 <= max_padding,
        pad.2 <= max_padding,
        pad.3 <= max_padding,
    ensures
        unpack_spec(seq![pad.0 as i128, pad.1 as i128, pad.2 as i128, pad.3 as i128], max_padding) == Ok::<Pad, PadError>(pad),
{
}

} // verus!
