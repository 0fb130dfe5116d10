//! Gain values, their legal range, and comparison at the device's precision.
use vstd::prelude::*;

verus! {

/// Lowest gain the device accepts, in hundredths of a decibel (-127.0 dB).
pub const GAIN_MIN: i64 = -12700;

/// Highest gain the device accepts, in hundredths of a decibel (0.0 dB).
pub const GAIN_MAX: i64 = 0;

/// A gain in decibels, held as a whole number of hundredths of a decibel.
#[derive(Clone, Copy, Debug, PartialEq, Eq, Structural)]
pub struct Gain {
    pub hundredths: i64,
}

/// `x` restricted to `[lo, hi]`.
pub open spec fn clamp_spec(x: int, lo: int, hi: int) -> int {
    if x < lo {
        lo
    } else if x > hi {
        hi
    } else {
        x
    }
}

/// Whether a gain lies within the device's legal range.
pub open spec fn in_range(g: Gain) -> bool {
    GAIN_MIN <= g.hundredths <= GAIN_MAX
}

/// A value in hundredths rounded to the nearest tenth, ties away from zero;
/// the result counts tenths.
pub open spec fn round_tenths(h: int) -> int {
    if h >= 0 {
        (h + 5) / 10
    } else {
        -((-h + 5) / 10)
    }
}

/// Two gains differ materially when they differ after rounding to tenths.
pub open spec fn differs_spec(a: Gain, b: Gain) -> bool {
    round_tenths(a.hundredths as int) != round_tenths(b.hundredths as int)
}

/// Relies on num::clamp: returns `lo` below the range, `hi` above it and the
/// input otherwise. It debug-asserts `lo <= hi`.
#[verifier::external_body]
fn clamp_wide(x: i128, lo: i128, hi: i128) -> (r: i128)
    requires
        lo <= hi,
    ensures
        r == clamp_spec(x as int, lo as int, hi as int),
{
    num::clamp(x, lo, hi)
}

/// Restricts a value in hundredths, of any size, to the device's legal range.
pub fn clamp_hundredths(x: i128) -> (r: Gain)
    ensures
        r.hundredths == clamp_spec(x as int, GAIN_MIN as int, GAIN_MAX as int),
        in_range(r),
{
    let c = clamp_wide(x, GAIN_MIN as i128, GAIN_MAX as i128);
    Gain { hundredths: c as i64 }
}

/// Restricts a gain to the device's legal range: a gain inside it is kept, a
/// gain outside it is saturated to the nearer bound.
pub fn clamp_gain(g: Gain) -> (r: Gain)
    ensures
        r.hundredths == clamp_spec(g.hundredths as int, GAIN_MIN as int, GAIN_MAX as int),
        in_range(r),
        in_range(g) ==> r == g,
{
    clamp_hundredths(g.hundredths as i128)
}

/// A value in hundredths rounded to tenths, ties away from zero.
pub fn round_to_tenths(h: i64) -> (r: i64)
    ensures
        r == round_tenths(h as int),
{
    let w = h as i128;
    if w >= 0 {
        ((w + 5) / 10) as i64
    } else {
        (-((-w + 5) / 10)) as i64
    }
}

/// Whether two gains differ once both are rounded to the device's precision
/// of one tenth of a decibel.
pub fn different_gain(current: Gain, new: Gain) -> (r: bool)
    ensures
        r == differs_spec(current, new),
{
    round_to_tenths(current.hundredths) != round_to_tenths(new.hundredths)
}

/// Material difference is irreflexive and symmetric.
pub proof fn lemma_differs_symmetric(a: Gain, b: Gain)
    ensures
        !differs_spec(a, a),
        differs_spec(a, b) == differs_spec(b, a),
{
}

} // verus!
