//! Both stick buttons together: a tap switches the free camera, a hold puts it
//! back.

use crate::input::button;
use vstd::prelude::*;

verus! {

/// How long both buttons are held before the camera is put back.
pub const FREELOOK_CHORD_HOLD_MS: u64 = 400;

/// What a press comes to.
#[derive(Clone, Copy, Debug, PartialEq, Eq, Structural)]
pub enum FreelookChordAction {
    /// Switch between the free camera and the game's controls.
    Toggle,
    /// Put the camera back to the game's view.
    Reset,
}

/// Tells a tap from a hold.
#[derive(Clone, Copy, Debug, PartialEq, Eq, Structural)]
pub struct FreelookChord {
    pub down: bool,
    pub hold_fired: bool,
}

impl FreelookChord {
    /// No button held.
    pub open spec fn spec_idle() -> Self {
        FreelookChord { down: false, hold_fired: false }
    }

    /// What one frame comes to.
    pub open spec fn action(self, chord: bool, hold_reached: bool) -> Option<FreelookChordAction> {
        if self.down && chord && hold_reached && !self.hold_fired {
            Some(FreelookChordAction::Reset)
        } else if self.down && !chord && !self.hold_fired {
            Some(FreelookChordAction::Toggle)
        } else {
            None
        }
    }

    /// The state after one frame.
    pub open spec fn next(self, chord: bool, hold_reached: bool) -> Self {
        FreelookChord {
            down: chord,
            hold_fired: chord && (self.hold_fired || (self.down && hold_reached)),
        }
    }

    /// Follows one frame.
    pub fn update(&mut self, chord: bool, hold_reached: bool) -> (action: Option<
        FreelookChordAction,
    >)
        ensures
            *final(self) == old(self).next(chord, hold_reached),
            action == old(self).action(chord, hold_reached),
    {
        let mut action = None;
        if self.down && chord {
            if hold_reached && !self.hold_fired {
                self.hold_fired = true;
                action = Some(FreelookChordAction::Reset);
            }
        } else if self.down && !self.hold_fired {
            action = Some(FreelookChordAction::Toggle);
        }
        if !chord {
            self.hold_fired = false;
        }
        self.down = chord;
        action
    }
}

impl Default for FreelookChord {
    fn default() -> (chord: Self)
        ensures
            chord == FreelookChord::spec_idle(),
    {
        FreelookChord { down: false, hold_fired: false }
    }
}

/// The state after some frames with both buttons held.
pub open spec fn held_through(start: FreelookChord, holds: Seq<bool>) -> FreelookChord
    decreases holds.len(),
{
    if holds.len() == 0 {
        start
    } else {
        held_through(start, holds.drop_last()).next(true, holds.last())
    }
}

/// How often the camera is put back in some frames with both buttons held.
pub open spec fn resets_through(start: FreelookChord, holds: Seq<bool>) -> nat
    decreases holds.len(),
{
    if holds.len() == 0 {
        0
    } else {
        let before = held_through(start, holds.drop_last());
        resets_through(start, holds.drop_last()) + if before.action(true, holds.last())
            == Some(FreelookChordAction::Reset) {
            1nat
        } else {
            0nat
        }
    }
}

/// The threshold is reached in a frame after the first.
pub open spec fn hold_reached_in(holds: Seq<bool>) -> bool {
    exists|i: int| 1 <= i < holds.len() && #[trigger] holds[i]
}

proof fn lemma_press(holds: Seq<bool>)
    requires
        holds.len() > 0,
    ensures
        held_through(FreelookChord::spec_idle(), holds) == (FreelookChord {
            down: true,
            hold_fired: hold_reached_in(holds),
        }),
        resets_through(FreelookChord::spec_idle(), holds) == if hold_reached_in(holds) {
            1nat
        } else {
            0nat
        },
    decreases holds.len(),
{
    let idle = FreelookChord::spec_idle();
    let before = holds.drop_last();
    if before.len() == 0 {
        assert(held_through(idle, before) == idle);
        assert(resets_through(idle, before) == 0);
    } else {
        lemma_press(before);
        if hold_reached_in(before) {
            let i = choose|i: int| 1 <= i < before.len() && #[trigger] before[i];
            assert(holds[i]);
        }
        if hold_reached_in(holds) && !holds.last() {
            let i = choose|i: int| 1 <= i < holds.len() && #[trigger] holds[i];
            assert(before[i]);
        }
        if holds.last() {
            assert(holds[holds.len() - 1]);
        }
    }
}

/// A press puts the camera back at most once, in the first frame after the one
/// it begins in that has reached the threshold, and then its release does not
/// switch; a press that never reaches the threshold switches once, on release.
/// After the release nothing of the press is left.
pub proof fn law_one_press_does_one_thing(holds: Seq<bool>, late: bool)
    requires
        holds.len() > 0,
    ensures
        ({
            let idle = FreelookChord::spec_idle();
            let released = held_through(idle, holds);
            &&& resets_through(idle, holds) == if hold_reached_in(holds) {
                1nat
            } else {
                0nat
            }
            &&& forall|k: int|
                0 <= k < holds.len() ==> held_through(idle, #[trigger] holds.take(k)).action(
                    true,
                    holds[k],
                ) == if 1 <= k && holds[k] && !hold_reached_in(holds.take(k)) {
                    Some(FreelookChordAction::Reset)
                } else {
                    None
                }
            &&& released.action(false, late) == if hold_reached_in(holds) {
                None
            } else {
                Some(FreelookChordAction::Toggle)
            }
            &&& released.next(false, late) == idle
        }),
{
    lemma_press(holds);
    assert forall|k: int| 0 <= k < holds.len() implies held_through(
        FreelookChord::spec_idle(),
        #[trigger] holds.take(k),
    ).action(true, holds[k]) == if 1 <= k && holds[k] && !hold_reached_in(holds.take(k)) {
        Some(FreelookChordAction::Reset)
    } else {
        None
    } by {
        if k > 0 {
            lemma_press(holds.take(k));
        } else {
            assert(holds.take(k).len() == 0);
        }
    }
}

/// Without a press nothing happens.
pub proof fn law_idle_is_silent(late: bool)
    ensures
        FreelookChord::spec_idle().action(false, late) is None,
        FreelookChord::spec_idle().next(false, late) == FreelookChord::spec_idle(),
{
}

/// Both stick buttons are in the mask.
pub open spec fn chord_in(mask: u16) -> bool {
    mask & (button::L3 | button::R3) == (button::L3 | button::R3)
}

/// What the free camera does this frame.
#[derive(Debug)]
pub struct FreelookStep {
    /// The camera is free from now on.
    pub enabled: bool,
    /// The camera goes back to the game's view.
    pub reset: bool,
    /// The press begins now; it is timed from here.
    pub started: bool,
    /// The buttons are up.
    pub released: bool,
    /// Right trigger: fly faster.
    pub boost: bool,
    /// What to tell the player.
    pub message: Option<&'static str>,
}

/// Follows the buttons for one frame. The press has lasted for `down_for_ms`
/// so far, if it began in an earlier frame.
pub fn freelook_step(
    chord: &mut FreelookChord,
    enabled: bool,
    mask: u16,
    down_for_ms: Option<u64>,
) -> (step: FreelookStep)
    ensures
        ({
            let held = chord_in(mask);
            let late = down_for_ms matches Some(ms) && ms >= FREELOOK_CHORD_HOLD_MS;
            let action = old(chord).action(held, late);
            &&& *final(chord) == old(chord).next(held, late)
            &&& step.enabled == (if action == Some(FreelookChordAction::Toggle) {
                !enabled
            } else {
                enabled
            })
            &&& step.reset == (action == Some(FreelookChordAction::Reset))
            &&& step.started == (held && down_for_ms is None)
            &&& step.released == !held
            &&& step.boost == (mask & button::R2 != 0)
            &&& match action {
                Some(FreelookChordAction::Toggle) => step.message matches Some(text) && text@
                    == if enabled {
                    "Freecam controls off - framing preserved; pad returns to the game"@
                } else {
                    "Freecam ON - pad drives the camera, game input paused (hold L3+R3 to reset)"@
                },
                Some(FreelookChordAction::Reset) => step.message matches Some(text) && text@
                    == "Freecam reset to the game camera"@,
                None => step.message is None,
            }
        }),
{
    let held = mask & (button::L3 | button::R3) == (button::L3 | button::R3);
    let late = match down_for_ms {
        Some(ms) => ms >= FREELOOK_CHORD_HOLD_MS,
        None => false,
    };
    let mut step = FreelookStep {
        enabled,
        reset: false,
        started: held && down_for_ms.is_none(),
        released: !held,
        boost: mask & button::R2 != 0,
        message: None,
    };
    match chord.update(held, late) {
        Some(FreelookChordAction::Toggle) => {
            step.enabled = !enabled;
            if enabled {
                step.message = Some(
                    "Freecam controls off - framing preserved; pad returns to the game",
                );
            } else {
                step.message = Some(
                    "Freecam ON - pad drives the camera, game input paused (hold L3+R3 to reset)",
                );
            }
        },
        Some(FreelookChordAction::Reset) => {
            step.reset = true;
            step.message = Some("Freecam reset to the game camera");
        },
        None => {},
    }
    step
}

/// The chord is both stick buttons, whatever else is held.
pub proof fn law_chord_is_both_stick_buttons(mask: u16)
    ensures
        chord_in(mask) <==> mask & button::L3 != 0 && mask & button::R3 != 0,
{
    assert((mask & (0x0002u16 | 0x0004u16) == (0x0002u16 | 0x0004u16)) <==> (mask & 0x0002 != 0
        && mask & 0x0004 != 0)) by (bit_vector);
}

} // verus!
