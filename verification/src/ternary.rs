//! Rounding weights to three values around a threshold.
//!
//! Weights and thresholds are IEEE-754 single-precision bit patterns; the
//! threshold of a row is given.
use vstd::prelude::*;
use crate::accelerate::is_above;
use crate::decode::{ONE_BITS, SIGN_BIT};

verus! {

/// The number with its sign turned.
pub open spec fn negated(bits: u32) -> u32 {
    if bits >= SIGN_BIT {
        (bits - SIGN_BIT) as u32
    } else {
        (bits + SIGN_BIT) as u32
    }
}

fn negate(bits: u32) -> (turned: u32)
    ensures
        turned == negated(bits),
{
    if bits >= SIGN_BIT {
        bits - SIGN_BIT
    } else {
        bits + SIGN_BIT
    }
}

/// The code of a weight: one above the threshold, minus one below its negative,
/// zero between them.
pub open spec fn code_of(w: u32, delta: u32) -> int {
    if crate::accelerate::above(w, delta) {
        1
    } else if crate::accelerate::above(negated(delta), w) {
        -1
    } else {
        0
    }
}

/// The code of a weight.
pub fn ternary_code(w: u32, delta: u32) -> (code: i8)
    ensures
        code == code_of(w, delta),
{
    if is_above(w, delta) {
        1
    } else if is_above(negate(delta), w) {
        -1
    } else {
        0
    }
}

/// The codes of a row of weights.
pub fn ternarize_row(row: &[u32], delta: u32) -> (codes: Vec<i8>)
    ensures
        codes@.len() == row@.len(),
        forall|i: int| 0 <= i < row@.len() ==> #[trigger] codes@[i] == code_of(row@[i], delta),
{
    let n: usize = row.len();
    let mut codes: Vec<i8> = Vec::new();
    for i in 0..n
        invariant
            n == row@.len(),
            codes@.len() == i,
            forall|j: int| 0 <= j < i ==> #[trigger] codes@[j] == code_of(row@[j], delta),
    {
        codes.push(ternary_code(row[i], delta));
    }
    codes
}

/// Why rows cannot be rounded.
#[derive(Clone, Copy, Debug, PartialEq, Eq, Structural)]
pub enum TernaryError {
    WeightLength,
    OutputLength,
    NoColumns,
}

/// The first thing that is wrong with the lengths.
pub open spec fn rows_error(weight: int, rows: int, cols: int, out: int) -> Option<TernaryError> {
    if weight != rows * cols {
        Some(TernaryError::WeightLength)
    } else if out != weight {
        Some(TernaryError::OutputLength)
    } else if cols == 0 {
        Some(TernaryError::NoColumns)
    } else {
        None
    }
}

/// Checks the lengths of rows that are to be rounded.
pub fn check_ternary_rows(weight: usize, rows: usize, cols: usize, out: usize) -> (checked: Result<
    (),
    TernaryError,
>)
    ensures
        match checked {
            Ok(_) => rows_error(weight as int, rows as int, cols as int, out as int) is None,
            Err(e) => rows_error(weight as int, rows as int, cols as int, out as int) == Some(e),
        },
{
    match rows.checked_mul(cols) {
        Some(all) if all == weight => {},
        _ => return Err(TernaryError::WeightLength),
    }
    if out != weight {
        return Err(TernaryError::OutputLength);
    }
    if cols == 0 {
        return Err(TernaryError::NoColumns);
    }
    Ok(())
}

/// Whether a gradient passes through the rounding of a weight: where the weight
/// lies between minus one and one.
pub fn gradient_passes(w: u32) -> (passes: bool)
    ensures
        passes == (crate::decode::magnitude(w) <= ONE_BITS),
{
    if w >= SIGN_BIT {
        w - SIGN_BIT <= ONE_BITS
    } else {
        w <= ONE_BITS
    }
}

/// A threshold that is not below zero rounds exactly those numbers to zero that
/// are no further from zero than it is.
pub proof fn law_small_weights_round_to_zero(w: u32, delta: u32)
    requires
        !crate::accelerate::is_nan(w),
        !crate::accelerate::is_nan(delta),
        delta <= SIGN_BIT,
    ensures
        code_of(w, delta) == 0 <==> crate::decode::magnitude(w) <= crate::decode::magnitude(delta),
{
}

/// The numbers that do not round to zero keep their sign: those above zero round
/// to one, and those below to minus one.
pub proof fn law_large_weights_round_to_their_sign(w: u32, delta: u32)
    requires
        !crate::accelerate::is_nan(w),
        !crate::accelerate::is_nan(delta),
        delta <= SIGN_BIT,
        crate::decode::magnitude(w) > crate::decode::magnitude(delta),
    ensures
        code_of(w, delta) == if w < SIGN_BIT {
            1int
        } else {
            -1
        },
{
}

/// Rounding treats both signs alike: the code of the number with its sign
/// turned is the code with its sign turned.
pub proof fn law_rounding_is_odd(w: u32, delta: u32)
    requires
        delta <= SIGN_BIT,
    ensures
        code_of(negated(w), delta) == -code_of(w, delta),
{
}

/// A larger weight never has a smaller code.
pub proof fn law_rounding_keeps_the_order(a: u32, b: u32, delta: u32)
    requires
        crate::accelerate::above(a, b),
        !crate::accelerate::is_nan(delta),
        delta <= SIGN_BIT,
    ensures
        code_of(a, delta) >= code_of(b, delta),
{
}

/// Rows are rounded when they have columns, and weights and codes fill them.
pub proof fn law_roundable_rows(weight: int, rows: int, cols: int, out: int)
    ensures
        rows_error(weight, rows, cols, out) is None <==> cols != 0 && weight == rows * cols && out
            == rows * cols,
{
}

} // verus!
