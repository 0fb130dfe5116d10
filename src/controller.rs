//! The two ways a gain is corrected: the proportional feedback loop, which
//! keeps a baseline between observations, and the fixed nudge on a key press,
//! which keeps nothing.
use vstd::prelude::*;

use crate::gain::{
    clamp_hundredths, clamp_spec, different_gain, differs_spec, in_range, round_tenths, Gain,
    GAIN_MAX, GAIN_MIN,
};

verus! {

/// Factor by which an observed deviation from the baseline is amplified.
pub const GAIN_SCALE: i64 = 6;

/// Step applied on a key press, in hundredths of a decibel (3.0 dB).
pub const GAIN_OFFSET: i64 = 300;

/// The baseline pushed away from by the scaled deviation of `new`, clamped.
pub open spec fn corrected_spec(current: Gain, new: Gain) -> Gain {
    Gain {
        hundredths: clamp_spec(
            current.hundredths + (new.hundredths - current.hundredths) * GAIN_SCALE,
            GAIN_MIN as int,
            GAIN_MAX as int,
        ) as i64,
    }
}

/// The gain to send after observing `new` against `current`, if any.
pub open spec fn update_spec(current: Gain, new: Gain) -> Option<Gain> {
    let c = corrected_spec(current, new);
    if differs_spec(current, c) {
        Some(c)
    } else {
        None
    }
}

/// The gain to send when a key asks to raise or lower `current`, if any.
pub open spec fn change_spec(current: Gain, increase: bool) -> Option<Gain> {
    let target = if increase {
        current.hundredths + GAIN_OFFSET
    } else {
        current.hundredths - GAIN_OFFSET
    };
    let c = Gain { hundredths: clamp_spec(target, GAIN_MIN as int, GAIN_MAX as int) as i64 };
    if differs_spec(current, c) {
        Some(c)
    } else {
        None
    }
}

/// Compares a fresh observation `new` with the baseline `current`: the
/// deviation is scaled by `GAIN_SCALE`, added to the baseline and clamped.
/// The result is the gain to send, or `None` when it does not differ from the
/// baseline at the device's precision.
pub fn update_gain(current: Gain, new: Gain) -> (r: Option<Gain>)
    ensures
        r == update_spec(current, new),
        r matches Some(c) ==> in_range(c),
{
    let base = current.hundredths as i128;
    let diff: i128 = new.hundredths as i128 - base;
    let scale = GAIN_SCALE as i128;
    assert(scale == 6);
    let scaled: i128 = base + diff * scale;
    let c = clamp_hundredths(scaled);
    if different_gain(current, c) {
        Some(c)
    } else {
        None
    }
}

/// Nudges the gain read just now by `GAIN_OFFSET`, up or down, and clamps.
/// The result is the gain to send, or `None` when it does not differ from
/// `current` at the device's precision.
pub fn change_gain(current: Gain, increase: bool) -> (r: Option<Gain>)
    ensures
        r == change_spec(current, increase),
        r matches Some(c) ==> in_range(c),
{
    let base = current.hundredths as i128;
    let target: i128 = if increase {
        base + GAIN_OFFSET as i128
    } else {
        base - GAIN_OFFSET as i128
    };
    let c = clamp_hundredths(target);
    if different_gain(current, c) {
        Some(c)
    } else {
        None
    }
}

/// What the feedback loop knows between observations: whether `baseline`
/// can be trusted, and the baseline itself.
#[derive(Clone, Copy, Debug, PartialEq, Eq, Structural)]
pub struct ControllerState {
    pub known: bool,
    pub baseline: Gain,
}

/// One cycle of the feedback loop: the next state and the gain to send.
/// An untrusted baseline is replaced by the observation; a trusted one is
/// kept when nothing is sent and distrusted once something is.
pub open spec fn step_spec(s: ControllerState, g: Gain) -> (ControllerState, Option<Gain>) {
    if !s.known {
        (ControllerState { known: true, baseline: g }, None)
    } else {
        match update_spec(s.baseline, g) {
            Some(c) => (ControllerState { known: false, baseline: s.baseline }, Some(c)),
            None => (s, None),
        }
    }
}

impl ControllerState {
    /// The state at start-up: no trusted baseline.
    pub fn new() -> (r: ControllerState)
        ensures
            !r.known,
            r.baseline == (Gain { hundredths: GAIN_MIN }),
    {
        ControllerState { known: false, baseline: Gain { hundredths: GAIN_MIN } }
    }

    /// Feeds one observed gain to the loop; returns the gain to send, if any.
    pub fn observe(&mut self, g: Gain) -> (cmd: Option<Gain>)
        ensures
            (*final(self), cmd) == step_spec(*old(self), g),
    {
        if !self.known {
            self.known = true;
            self.baseline = g;
            None
        } else {
            let cmd = update_gain(self.baseline, g);
            if cmd.is_some() {
                self.known = false;
            }
            cmd
        }
    }
}

/// With a trusted baseline in range, an observation that does not differ from
/// it at the device's precision sends nothing and leaves the state as it was.
/// Both gains are whole tenths, as the device reports them.
pub proof fn lemma_steady_observation(s: ControllerState, g: Gain)
    requires
        s.known,
        in_range(s.baseline),
        s.baseline.hundredths % 10 == 0,
        g.hundredths % 10 == 0,
        !differs_spec(s.baseline, g),
    ensures
        step_spec(s, g) == (s, Option::<Gain>::None),
{
    let b = s.baseline.hundredths as int;
    let h = g.hundredths as int;
    assert(round_tenths(b) == b / 10);
    assert(round_tenths(h) == h / 10);
    assert(b == h);
    assert(corrected_spec(s.baseline, g) == s.baseline);
}

} // verus!
