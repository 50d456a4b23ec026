//! Flying a unit by hand: which stick drives what, which joystick is taken, and the loop that
//! sends setpoints until it is told to stop. Stick positions are the bits of singles.

use crate::float_bits;
use vstd::prelude::*;

verus! {

// ---------------------------------------------------------------------------
// The sticks
// ---------------------------------------------------------------------------

/// The single 0.1: sticks within this of the middle count as centred.
pub const DEADZONE: u32 = 0x3dcc_cccd;

/// The absolute value of a single, by its bits.
pub open spec fn absolute(bits: u32) -> u32 {
    float_bits::single_magnitude(bits) as u32
}

/// A stick position, or the middle when it is within the dead zone of it. A NaN is in no zone.
pub open spec fn outside_deadzone(value: u32, deadzone: u32) -> u32 {
    if float_bits::single_less(absolute(value), deadzone) {
        0
    } else {
        value
    }
}

/// A stick position, or the middle when it is within the dead zone of it.
pub fn apply_deadzone(value: u32, deadzone: u32) -> (r: u32)
    ensures
        r == outside_deadzone(value, deadzone),
{
    let magnitude: u32 = if value >= 0x8000_0000 {
        value - 0x8000_0000
    } else {
        value
    };
    if float_bits::less_single(magnitude, deadzone) {
        0
    } else {
        value
    }
}

/// Where the sticks stand.
#[derive(Debug, Clone, Copy)]
pub struct Sticks {
    pub left_x: u32,
    pub left_y: u32,
    pub right_x: u32,
    pub right_y: u32,
}

/// What the sticks ask for, each as a share of its full value: 30 degrees of roll and pitch, 200
/// degrees per second of yaw, and a thrust of 60000.
#[derive(Debug, Clone, Copy)]
pub struct StickShares {
    pub roll: u32,
    pub pitch: u32,
    pub yawrate: u32,
    pub thrust: u32,
}

/// The right stick tilts, the left one turns and lifts; nothing pulls down.
pub open spec fn shares_of(s: Sticks) -> StickShares {
    let lift = outside_deadzone(s.left_y, DEADZONE);
    StickShares {
        roll: outside_deadzone(s.right_x, DEADZONE),
        pitch: outside_deadzone(s.right_y, DEADZONE),
        yawrate: outside_deadzone(s.left_x, DEADZONE),
        thrust: if float_bits::single_less(0, lift) {
            lift
        } else {
            0
        },
    }
}

/// What the sticks ask for.
pub fn map_joystick_axes(s: &Sticks) -> (shares: StickShares)
    ensures
        shares == shares_of(*s),
{
    let lift: u32 = apply_deadzone(s.left_y, DEADZONE);
    StickShares {
        roll: apply_deadzone(s.right_x, DEADZONE),
        pitch: apply_deadzone(s.right_y, DEADZONE),
        yawrate: apply_deadzone(s.left_x, DEADZONE),
        thrust: if float_bits::less_single(0, lift) {
            lift
        } else {
            0
        },
    }
}

/// Sticks that are all within the dead zone ask for nothing at all.
pub proof fn law_centred_sticks(s: Sticks)
    requires
        float_bits::single_less(absolute(s.left_x), DEADZONE),
        float_bits::single_less(absolute(s.left_y), DEADZONE),
        float_bits::single_less(absolute(s.right_x), DEADZONE),
        float_bits::single_less(absolute(s.right_y), DEADZONE),
    ensures
        shares_of(s) == (StickShares { roll: 0, pitch: 0, yawrate: 0, thrust: 0 }),
{
}

/// The thrust is never negative and never a NaN.
pub proof fn law_thrust_not_negative(s: Sticks)
    ensures
        float_bits::single_at_most(0, shares_of(s).thrust),
{
}

// ---------------------------------------------------------------------------
// Choosing a joystick
// ---------------------------------------------------------------------------

/// The joystick that is taken when the panel opens: the first one there is.
pub fn first_joystick(joysticks: usize) -> (choice: Option<usize>)
    ensures
        choice == (if joysticks > 0 {
            Some(0usize)
        } else {
            None
        }),
{
    if joysticks > 0 {
        Some(0)
    } else {
        None
    }
}

/// The joystick at a position of the list; none for a position that is not there.
pub fn joystick_at(index: i32, joysticks: usize) -> (choice: Option<usize>)
    ensures
        choice == (if 0 <= index < joysticks {
            Some(index as usize)
        } else {
            None
        }),
{
    if index < 0 || index as usize >= joysticks {
        None
    } else {
        Some(index as usize)
    }
}

// ---------------------------------------------------------------------------
// The loop
// ---------------------------------------------------------------------------

/// Milliseconds between two setpoints.
pub const SETPOINT_PERIOD_MS: u64 = 20;

/// Milliseconds that a new loop waits for an old one to end.
pub const HANDOVER_MS: u64 = 50;

/// The steps of flying by hand.
#[derive(Debug, Clone, Copy, PartialEq, Eq, Structural)]
pub enum ControlStep {
    /// Send a setpoint of zero, which unlocks the thrust.
    Unlock,
    /// See whether the loop still runs.
    Check,
    /// Read and show the sticks.
    ReadSticks,
    /// Send what they ask for.
    Send,
    /// Wait for the next round.
    Pause,
    /// Send a setpoint of zero.
    ZeroThrust,
    /// Hand over to the high-level commander.
    NotifyStop,
    /// Show the sticks in the middle.
    CentreSticks,
    Done,
}

/// The step after `step`. The loop ends when it is told to, or when a setpoint cannot be sent;
/// a unit that cannot be unlocked is left alone.
pub open spec fn control_next(step: ControlStep, ok: bool) -> ControlStep {
    match step {
        ControlStep::Unlock => if ok {
            ControlStep::Check
        } else {
            ControlStep::Done
        },
        ControlStep::Check => if ok {
            ControlStep::ReadSticks
        } else {
            ControlStep::ZeroThrust
        },
        ControlStep::ReadSticks => ControlStep::Send,
        ControlStep::Send => if ok {
            ControlStep::Pause
        } else {
            ControlStep::ZeroThrust
        },
        ControlStep::Pause => ControlStep::Check,
        ControlStep::ZeroThrust => ControlStep::NotifyStop,
        ControlStep::NotifyStop => ControlStep::CentreSticks,
        ControlStep::CentreSticks => ControlStep::Done,
        ControlStep::Done => ControlStep::Done,
    }
}

/// The step after `step`, which went well or not.
pub fn next_control_step(step: ControlStep, ok: bool) -> (next: ControlStep)
    ensures
        next == control_next(step, ok),
{
    match step {
        ControlStep::Unlock => if ok {
            ControlStep::Check
        } else {
            ControlStep::Done
        },
        ControlStep::Check => if ok {
            ControlStep::ReadSticks
        } else {
            ControlStep::ZeroThrust
        },
        ControlStep::ReadSticks => ControlStep::Send,
        ControlStep::Send => if ok {
            ControlStep::Pause
        } else {
            ControlStep::ZeroThrust
        },
        ControlStep::Pause => ControlStep::Check,
        ControlStep::ZeroThrust => ControlStep::NotifyStop,
        ControlStep::NotifyStop => ControlStep::CentreSticks,
        ControlStep::CentreSticks => ControlStep::Done,
        ControlStep::Done => ControlStep::Done,
    }
}

/// The step that is reached from `step` when the steps go as `outcomes` says.
pub open spec fn control_after(step: ControlStep, outcomes: Seq<bool>) -> ControlStep
    decreases outcomes.len(),
{
    if outcomes.len() == 0 {
        step
    } else {
        control_next(control_after(step, outcomes.drop_last()), outcomes.last())
    }
}

/// Once the thrust was unlocked, the loop does not end before the thrust was set to zero: a run
/// that is done and did not fail to unlock went through that step.
pub proof fn law_control_zeroes_thrust(outcomes: Seq<bool>)
    requires
        outcomes.len() > 0,
        outcomes[0],
        control_after(ControlStep::Unlock, outcomes) == ControlStep::Done,
    ensures
        exists|n: int|
            0 <= n < outcomes.len() && #[trigger] control_after(
                ControlStep::Unlock,
                outcomes.take(n),
            ) == ControlStep::ZeroThrust,
{
    lemma_cleanup_was_reached(outcomes);
}

/// The loop is over: the thrust was set to zero, or is about to be handed over.
spec fn ending(step: ControlStep) -> bool {
    step == ControlStep::NotifyStop || step == ControlStep::CentreSticks || step
        == ControlStep::Done
}

proof fn lemma_cleanup_was_reached(outcomes: Seq<bool>)
    requires
        outcomes.len() > 0,
        outcomes[0],
        ending(control_after(ControlStep::Unlock, outcomes)),
    ensures
        exists|n: int|
            0 <= n < outcomes.len() && #[trigger] control_after(
                ControlStep::Unlock,
                outcomes.take(n),
            ) == ControlStep::ZeroThrust,
    decreases outcomes.len(),
{
    let shorter = outcomes.drop_last();
    let before = control_after(ControlStep::Unlock, shorter);
    assert(shorter =~= outcomes.take(outcomes.len() - 1));
    if before == ControlStep::ZeroThrust {
        assert(control_after(ControlStep::Unlock, outcomes.take(outcomes.len() - 1))
            == ControlStep::ZeroThrust);
    } else if shorter.len() == 0 {
        assert(outcomes.last() == outcomes[0]);
    } else {
        assert(before != ControlStep::Unlock) by {
            assert(control_next(
                control_after(ControlStep::Unlock, shorter.drop_last()),
                shorter.last(),
            ) != ControlStep::Unlock);
        }
        lemma_cleanup_was_reached(shorter);
        let n = choose|n: int|
            0 <= n < shorter.len() && #[trigger] control_after(
                ControlStep::Unlock,
                shorter.take(n),
            ) == ControlStep::ZeroThrust;
        assert(shorter.take(n) =~= outcomes.take(n));
    }
}

/// Told to stop, the loop sets the thrust to zero and hands over, whatever goes wrong on the way.
pub proof fn law_control_stops(a: bool, b: bool, c: bool)
    ensures
        control_after(ControlStep::Check, seq![false]) == ControlStep::ZeroThrust,
        control_after(ControlStep::Check, seq![false, a]) == ControlStep::NotifyStop,
        control_after(ControlStep::Check, seq![false, a, b, c]) == ControlStep::Done,
{
    reveal_with_fuel(control_after, 5);
    assert(seq![false].drop_last() =~= Seq::empty());
    assert(seq![false, a].drop_last() =~= seq![false]);
    assert(seq![false, a, b, c].drop_last() =~= seq![false, a, b]);
    assert(seq![false, a, b].drop_last() =~= seq![false, a]);
}

/// The right stick tilts and the left one turns and lifts: outside the dead zone roll follows the
/// right stick sideways, pitch the right one lengthways, yaw the left one sideways, and thrust the
/// left one where it is pushed up. The other stick has no part in either.
pub proof fn law_sticks_drive(s: Sticks)
    ensures
        float_bits::single_at_most(DEADZONE, absolute(s.right_x)) ==> shares_of(s).roll == s.right_x,
        float_bits::single_at_most(DEADZONE, absolute(s.right_y)) ==> shares_of(s).pitch == s.right_y,
        float_bits::single_at_most(DEADZONE, absolute(s.left_x)) ==> shares_of(s).yawrate == s.left_x,
        float_bits::single_at_most(DEADZONE, s.left_y) ==> shares_of(s).thrust == s.left_y,
        float_bits::single_less(s.left_y, 0) ==> shares_of(s).thrust == 0,
        float_bits::single_less(absolute(s.right_x), DEADZONE) ==> shares_of(s).roll == 0,
        float_bits::single_less(absolute(s.right_y), DEADZONE) ==> shares_of(s).pitch == 0,
        float_bits::single_less(absolute(s.left_x), DEADZONE) ==> shares_of(s).yawrate == 0,
        float_bits::single_less(absolute(s.left_y), DEADZONE) ==> shares_of(s).thrust == 0,
{
}

/// The size of a single is the single without its sign.
pub proof fn law_absolute(v: u32)
    ensures
        absolute(v) < 0x8000_0000,
        v == absolute(v) || v == absolute(v) + 0x8000_0000,
        absolute(absolute(v)) == absolute(v),
{
}

/// While all goes well the loop asks, reads the sticks, sends and waits, over and over. A setpoint
/// that can not be sent ends it like being told to stop, and a unit that can not be unlocked is
/// left alone.
pub proof fn law_control_rounds()
    ensures
        control_next(ControlStep::Unlock, true) is Check,
        control_next(control_next(ControlStep::Check, true), true) is Send,
        control_next(control_next(ControlStep::Check, true), false) is Send,
        control_next(control_next(ControlStep::Send, true), true) is Check,
        control_next(control_next(ControlStep::Send, true), false) is Check,
        control_next(ControlStep::Send, true) is Pause,
        control_next(ControlStep::Check, true) is ReadSticks,
        control_next(ControlStep::Send, false) == control_next(ControlStep::Check, false),
        control_next(ControlStep::Unlock, false) is Done,
{
}

/// However the loop ends, the thrust is set to zero first, then the unit is told that the setpoints
/// stop, and then the sticks are centred, whether or not these steps go well.
pub proof fn law_control_ends(first: bool, second: bool, third: bool)
    ensures
        control_next(ControlStep::Check, false) is ZeroThrust,
        control_next(ControlStep::ZeroThrust, first) is NotifyStop,
        control_next(control_next(ControlStep::ZeroThrust, first), second) is CentreSticks,
        control_next(
            control_next(control_next(ControlStep::ZeroThrust, first), second),
            third,
        ) is Done,
        control_next(ControlStep::Done, first) is Done,
{
}

} // verus!
