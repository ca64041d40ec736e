//! The four rails on which the balancing masses travel, and the decisions that
//! both control loops take about mass positions.
//!
//! Positions are metres from the home end of a rail, one for each of the four
//! axes. The axis at index `i` has bus address `i + 1`.

use crate::scalar::{Scalar, INFINITY_BITS, SIGN_BIT};
use vstd::prelude::*;

verus! {

/// One number for each of the four axes.
pub type PerAxis = [Scalar; 4];

/// Smallest commanded position, 0.001 m, as binary64 bits.
pub const D_MIN: u64 = 0x3F50_624D_D2F1_A9FC;

/// Largest commanded position, 0.495 m, as binary64 bits.
pub const D_MAX: u64 = 0x3FDF_AE14_7AE1_47AE;

/// Zero as binary64 bits.
pub const ZERO: u64 = 0;

/// `x` limited to the travel of a rail.
pub open spec fn on_rail(x: Scalar) -> Scalar {
    x.clamped(Scalar { bits: D_MIN }, Scalar { bits: D_MAX })
}

/// Every position limited to the travel of its rail.
pub open spec fn saturated(d: PerAxis) -> PerAxis {
    [on_rail(d[0]), on_rail(d[1]), on_rail(d[2]), on_rail(d[3])]
}

/// Every position lies on its rail, or is NaN.
pub open spec fn all_on_rail(d: PerAxis) -> bool {
    forall|i: int| 0 <= i < 4 ==> on_rail(#[trigger] d[i]) == d[i]
}

/// Every position is a number between the ends of its rail.
pub open spec fn all_within_ends(d: PerAxis) -> bool {
    forall|i: int|
        0 <= i < 4 ==> (Scalar { bits: D_MIN }).le(#[trigger] d[i]) && d[i].le(
            Scalar { bits: D_MAX },
        )
}

/// No position is NaN.
pub open spec fn all_numbers(d: PerAxis) -> bool {
    forall|i: int| 0 <= i < 4 ==> !(#[trigger] d[i]).nan()
}

/// Some position lies below `threshold`.
pub open spec fn any_below(d: PerAxis, threshold: Scalar) -> bool {
    exists|i: int| 0 <= i < 4 && (#[trigger] d[i]).lt(threshold)
}

/// The tracking gate: the largest tracking error, taken as at least zero,
/// exceeds `tolerance`. A NaN error counts as none.
pub open spec fn gate_held(errors: PerAxis, tolerance: Scalar) -> bool {
    ||| tolerance.lt(Scalar { bits: ZERO })
    ||| exists|i: int| 0 <= i < 4 && tolerance.lt((#[trigger] errors[i]).absolute())
}

/// `latest` if it is a finite reading, `previous` otherwise.
pub open spec fn held(previous: Scalar, latest: Option<Scalar>) -> Scalar {
    match latest {
        Some(v) if v.finite() => v,
        _ => previous,
    }
}

proof fn lemma_rail_bounds()
    ensures
        (Scalar { bits: D_MIN }).le(Scalar { bits: D_MAX }),
{
    let low = Scalar { bits: D_MIN };
    let high = Scalar { bits: D_MAX };
    assert(low.magnitude() == D_MIN && high.magnitude() == D_MAX);
    crate::scalar::lemma_magnitude_order(D_MIN, D_MAX);
}

/// Limits `x` to the travel of a rail.
pub fn limit_to_rail(x: Scalar) -> (res: Scalar)
    ensures
        res == on_rail(x),
{
    proof {
        lemma_rail_bounds();
    }
    x.clamp(Scalar { bits: D_MIN }, Scalar { bits: D_MAX })
}

/// Limits every position to the travel of its rail.
pub fn saturate(d: PerAxis) -> (res: PerAxis)
    ensures
        res == saturated(d),
{
    [limit_to_rail(d[0]), limit_to_rail(d[1]), limit_to_rail(d[2]), limit_to_rail(d[3])]
}

/// Whether some position lies below `threshold`.
pub fn is_any_below(d: PerAxis, threshold: Scalar) -> (res: bool)
    ensures
        res == any_below(d, threshold),
{
    let mut i: usize = 0;
    while i < 4
        invariant
            i <= 4,
            forall|j: int| 0 <= j < i ==> !(#[trigger] d[j]).lt(threshold),
        decreases 4 - i,
    {
        if d[i].less(threshold) {
            return true;
        }
        i = i + 1;
    }
    false
}

/// Whether the tracking gate holds the command: see [`gate_held`].
pub fn is_gate_held(errors: PerAxis, tolerance: Scalar) -> (res: bool)
    ensures
        res == gate_held(errors, tolerance),
{
    if tolerance.less(Scalar { bits: ZERO }) {
        return true;
    }
    let mut i: usize = 0;
    while i < 4
        invariant
            i <= 4,
            forall|j: int| 0 <= j < i ==> !tolerance.lt((#[trigger] errors[j]).absolute()),
        decreases 4 - i,
    {
        if tolerance.less(errors[i].abs()) {
            return true;
        }
        i = i + 1;
    }
    false
}

/// `latest` if it is a finite reading, `previous` otherwise.
pub fn hold_reading(previous: Scalar, latest: Option<Scalar>) -> (res: Scalar)
    ensures
        res == held(previous, latest),
{
    match latest {
        Some(v) => {
            if v.is_finite() {
                v
            } else {
                previous
            }
        },
        None => previous,
    }
}

/// Saturated positions lie on their rails, and saturating them again changes
/// nothing.
pub proof fn law_saturation_is_idempotent(d: PerAxis)
    ensures
        all_on_rail(saturated(d)),
        saturated(saturated(d)) == saturated(d),
{
    lemma_rail_bounds();
    let low = Scalar { bits: D_MIN };
    let high = Scalar { bits: D_MAX };
    assert forall|i: int| 0 <= i < 4 implies on_rail(#[trigger] saturated(d)[i])
        == saturated(d)[i] by {
        crate::scalar::law_clamp_lands_between_bounds(d[i], low, high);
    }
    assert(saturated(saturated(d)) =~= saturated(d));
}

/// Positions that lie on their rails are left alone by saturation.
pub proof fn law_positions_on_rail_are_kept(d: PerAxis)
    requires
        all_on_rail(d),
    ensures
        saturated(d) == d,
{
    assert(saturated(d) =~= d);
}

/// Saturated positions lie between the ends of their rails, unless they are not
/// numbers.
pub proof fn law_saturated_positions_lie_within_ends(d: PerAxis)
    requires
        all_numbers(d),
    ensures
        all_within_ends(saturated(d)),
{
    lemma_rail_bounds();
    assert forall|i: int| 0 <= i < 4 implies (Scalar { bits: D_MIN }).le(
        #[trigger] saturated(d)[i],
    ) && saturated(d)[i].le(Scalar { bits: D_MAX }) by {
        assert(!d[i].nan());
        crate::scalar::law_clamp_lands_between_bounds(
            d[i],
            Scalar { bits: D_MIN },
            Scalar { bits: D_MAX },
        );
    }
}

/// Positions of which none is below a threshold on the rails stay so when they are
/// limited to the rails.
pub proof fn law_saturation_keeps_threshold(d: PerAxis, threshold: Scalar)
    requires
        !any_below(d, threshold),
        threshold.le(Scalar { bits: D_MAX }),
    ensures
        !any_below(saturated(d), threshold),
{
    lemma_rail_bounds();
    assert forall|i: int| 0 <= i < 4 implies !(#[trigger] saturated(d)[i]).lt(threshold) by {
        assert(!d[i].lt(threshold));
    }
}

/// Each position is limited to its own rail: one between the ends stays exactly, one
/// beyond an end goes to that end, and what is not a number stays.
pub proof fn law_each_position_is_limited(d: PerAxis, i: int)
    requires
        0 <= i < 4,
    ensures
        ({
            let (low, high) = (Scalar { bits: D_MIN }, Scalar { bits: D_MAX });
            &&& d[i].nan() ==> saturated(d)[i] == d[i]
            &&& !d[i].nan() && d[i].units() < low.units() ==> saturated(d)[i] == low
            &&& !d[i].nan() && d[i].units() > high.units() ==> saturated(d)[i] == high
            &&& low.units() <= d[i].units() <= high.units() ==> saturated(d)[i] == d[i]
        }),
{
    lemma_rail_bounds();
}

/// A finite reading replaces what was known before; without one that stays.
pub proof fn law_finite_reading_counts(previous: Scalar, v: Scalar)
    ensures
        held(previous, None) == previous,
        v.bits % SIGN_BIT < INFINITY_BITS ==> held(previous, Some(v)) == v,
        v.bits % SIGN_BIT >= INFINITY_BITS ==> held(previous, Some(v)) == previous,
{
}

/// The start is refused exactly while some axis is known to be below the threshold.
pub proof fn law_below_means_some_axis(d: PerAxis, threshold: Scalar)
    requires
        !threshold.nan(),
        all_numbers(d),
    ensures
        any_below(d, threshold) <==> d[0].units() < threshold.units() || d[1].units()
            < threshold.units() || d[2].units() < threshold.units() || d[3].units()
            < threshold.units(),
{
    assert(!d[0].nan() && !d[1].nan() && !d[2].nan() && !d[3].nan());
    if any_below(d, threshold) {
        let i = choose|i: int| 0 <= i < 4 && (#[trigger] d[i]).lt(threshold);
        assert(i == 0 || i == 1 || i == 2 || i == 3);
    }
    assert(d[0].lt(threshold) <==> d[0].units() < threshold.units());
    assert(d[1].lt(threshold) <==> d[1].units() < threshold.units());
    assert(d[2].lt(threshold) <==> d[2].units() < threshold.units());
    assert(d[3].lt(threshold) <==> d[3].units() < threshold.units());
}

/// The tracking gate holds exactly if the tolerance is negative or some error is
/// larger than it in size, either way. Errors that are not numbers do not count, and
/// a tolerance that is not a number holds nothing.
pub proof fn law_gate_goes_by_size(errors: PerAxis, tolerance: Scalar)
    ensures
        tolerance.nan() ==> !gate_held(errors, tolerance),
        !tolerance.nan() ==> (gate_held(errors, tolerance) <==> tolerance.units() < 0 || exists|
            i: int,
        |
            0 <= i < 4 && !(#[trigger] errors[i]).nan() && (errors[i].units() > tolerance.units()
                || errors[i].units() < -tolerance.units())),
{
    assert(crate::scalar::magnitude_units(0) == 0);
    assert forall|i: int| 0 <= i < 4 implies ((#[trigger] errors[i]).nan()
        == errors[i].absolute().nan()) && errors[i].absolute().units() == if errors[i].units() < 0 {
        -errors[i].units()
    } else {
        errors[i].units()
    } by {
        crate::scalar::law_absolute_drops_sign(errors[i]);
    }
    if gate_held(errors, tolerance) && !tolerance.lt(Scalar { bits: ZERO }) {
        let i = choose|i: int| 0 <= i < 4 && tolerance.lt((#[trigger] errors[i]).absolute());
        assert(tolerance.lt(errors[i].absolute()));
        assert(errors[i].units() > tolerance.units() || errors[i].units() < -tolerance.units());
    }
    if !tolerance.nan() && exists|i: int|
        0 <= i < 4 && !(#[trigger] errors[i]).nan() && (errors[i].units() > tolerance.units()
            || errors[i].units() < -tolerance.units()) {
        let i = choose|i: int|
            0 <= i < 4 && !(#[trigger] errors[i]).nan() && (errors[i].units() > tolerance.units()
                || errors[i].units() < -tolerance.units());
        if tolerance.units() >= 0 {
            assert(tolerance.lt(errors[i].absolute()));
        }
    }
}

} // verus!
