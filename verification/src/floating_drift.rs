//! Fixed-point scale and the drift corrector.
//!
//! Rotating an offset by a rounded cosine and sine leaves results that miss a
//! whole board unit by a few steps. The corrector snaps those back, so that
//! destinations which are geometrically exact compare equal to hand-written
//! coordinates.

use vstd::prelude::*;

verus! {

/// Fixed-point steps in one board unit (an eighth of the board side).
pub const UNIT: i64 = 1_000_000;

/// A value closer than this to a whole board unit is taken to be that unit.
pub const EPSILON: i64 = 100;

/// Largest magnitude a coordinate may have: five hundred board units.
///
/// The bound keeps every product of the legality test within 128 bits.
pub const COORD_LIMIT: i64 = 500_000_000;

/// Whether `val` can be used as a coordinate.
pub open spec fn in_range(val: int) -> bool {
    -COORD_LIMIT <= val <= COORD_LIMIT
}

/// Whether both coordinates of `p` are usable.
pub open spec fn point_in_range(p: (i64, i64)) -> bool {
    in_range(p.0 as int) && in_range(p.1 as int)
}

/// `val` with drift removed: the whole board unit within `EPSILON` of `val`
/// where there is one, else `val` itself.
pub open spec fn drift_adjusted(val: int) -> int {
    let r = val % (UNIT as int);
    if r < EPSILON {
        val - r
    } else if UNIT - r < EPSILON {
        val + (UNIT - r)
    } else {
        val
    }
}

/// Each value of `values` with drift removed, in order.
pub open spec fn drift_adjusted_all(values: Seq<i64>) -> Seq<int> {
    Seq::new(values.len(), |i: int| drift_adjusted(values[i] as int))
}

/// Rounds `val` to the nearest whole board unit if it is within `EPSILON`
/// of it, and leaves it unchanged otherwise.
pub fn round_if_close_to_integer(val: i64) -> (res: i64)
    requires
        i64::MIN + UNIT <= val <= i64::MAX - UNIT,
    ensures
        res == drift_adjusted(val as int),
{
    let t: i64 = val % UNIT;
    let r: i64 = if t < 0 { t + UNIT } else { t };
    if r < EPSILON {
        val - r
    } else if UNIT - r < EPSILON {
        val + (UNIT - r)
    } else {
        val
    }
}

/// Removes drift from every value on its own.
pub fn floating_drift_adjust(values: Vec<i64>) -> (res: Vec<i64>)
    requires
        forall|i: int| 0 <= i < values.len() ==> i64::MIN + UNIT <= #[trigger] values[i] <= i64::MAX - UNIT,
    ensures
        res@.map_values(|v: i64| v as int) == drift_adjusted_all(values@),
{
    let mut res: Vec<i64> = Vec::new();
    let mut i: usize = 0;
    while i < values.len()
        invariant
            i <= values.len(),
            res.len() == i,
            forall|j: int| 0 <= j < values.len() ==> i64::MIN + UNIT <= #[trigger] values[j] <= i64::MAX - UNIT,
            forall|j: int| 0 <= j < i ==> #[trigger] res[j] == drift_adjusted(values[j] as int),
        decreases values.len() - i,
    {
        res.push(round_if_close_to_integer(values[i]));
        i += 1;
    }
    assert(res@.map_values(|v: i64| v as int) =~= drift_adjusted_all(values@));
    res
}

/// An adjusted value is a whole board unit or the value itself, and never
/// further than `EPSILON` from where it started.
pub proof fn lemma_drift_adjusted_close(val: int)
    ensures
        drift_adjusted(val) == val || drift_adjusted(val) % (UNIT as int) == 0,
        -EPSILON < drift_adjusted(val) - val < EPSILON,
{
}

/// Adjusting twice is the same as adjusting once.
pub proof fn lemma_drift_adjusted_idempotent(val: int)
    ensures
        drift_adjusted(drift_adjusted(val)) == drift_adjusted(val),
{
}

/// A whole number of board units is left as it is.
pub proof fn lemma_drift_adjusted_whole(n: int)
    ensures
        drift_adjusted(n * UNIT) == n * UNIT,
{
    assert((n * UNIT) % (UNIT as int) == 0) by (nonlinear_arith);
}

} // verus!
