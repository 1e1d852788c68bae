use vstd::prelude::*;

verus! {

/// pH values are counted in thousandths of a pH unit: a bound or a step finer
/// than that must be rounded to it by the caller, so a step below half a
/// thousandth becomes zero and is refused.
pub const PH_SCALE: i64 = 1000;

/// Why a pH range was refused.
#[derive(Clone, Copy, Debug, PartialEq, Eq, Structural)]
pub enum PhRangeError {
    /// The lower bound is not below the upper bound.
    Boundaries,
    /// The step is not positive, or larger than the range.
    StepSize,
}

/// Whether `(low, high, step)` describes an acceptable pH range.
pub open spec fn valid_range(low: int, high: int, step: int) -> bool {
    low < high && 0 < step <= high - low
}

/// The pH grid from `low` to `high` by `step`: the values `low + i * step` in
/// ascending order, up to and including the first one that reaches `high`,
/// which may overshoot it. A range with `low >= high` is refused with
/// `Boundaries`; otherwise one whose step is not positive or exceeds
/// `high - low` is refused with `StepSize`.
pub fn build_ph_grid(low: i64, high: i64, step: i64) -> (r: Result<Vec<i64>, PhRangeError>)
    requires
        high as int + step as int <= i64::MAX as int + 1,
    ensures
        r is Ok <==> valid_range(low as int, high as int, step as int),
        r matches Err(e) ==> (e == PhRangeError::Boundaries <==> low >= high),
        r matches Ok(v) ==> {
            &&& v@.len() >= 2
            &&& forall|i: int| 0 <= i < v@.len() ==> #[trigger] v@[i] == low + i * step
            &&& v@.last() >= high
            &&& v@[v@.len() - 2] < high
        },
{
    if low >= high {
        return Err(PhRangeError::Boundaries);
    }
    if step <= 0 || (high as i128) - (low as i128) < step as i128 {
        return Err(PhRangeError::StepSize);
    }
    let mut values: Vec<i64> = vec![low];
    let mut last: i64 = low;
    let ghost mut i: int = 0;
    while last < high
        invariant
            low < high,
            0 < step <= high - low,
            high as int + step as int <= i64::MAX as int + 1,
            values@.len() == i + 1,
            last == low + i * step,
            last == values@.last(),
            forall|t: int| 0 <= t < values@.len() ==> #[trigger] values@[t] == low + t * step,
            i >= 0,
            i > 0 ==> values@[i - 1] < high,
        decreases high - last + step,
    {
        let ghost prev = values@;
        last = last + step;
        values.push(last);
        proof {
            assert(values@[i] == prev[i]);
            assert(last == low + (i + 1) * step) by (nonlinear_arith)
                requires
                    last == low + i * step + step,
            ;
            i = i + 1;
        }
    }
    Ok(values)
}

} // verus!
