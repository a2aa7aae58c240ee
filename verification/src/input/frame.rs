//! What one frame of controller input comes to.

use crate::input::button;
use vstd::prelude::*;

verus! {

/// Select and Start held together open the menu.
pub const CHORD_MASK: u16 = 0x0009;

/// Input for one guest port. A stick is the one of a sampled controller, by
/// its number in the frame, or centred.
#[derive(Clone, Copy, Debug, PartialEq, Eq)]
pub struct RoutedPadInput {
    pub mask: u16,
    pub left_stick: Option<usize>,
    pub right_stick: Option<usize>,
}

/// One controller as sampled this frame.
#[derive(Clone, Copy, Debug, PartialEq, Eq, Structural)]
pub struct PadSample {
    /// Which controller it is.
    pub key: u32,
    pub mask: u16,
    /// The left stick is off centre.
    pub left_moved: bool,
    /// The right stick is off centre.
    pub right_moved: bool,
    pub mode_down: bool,
}

impl RoutedPadInput {
    /// Nothing held, both sticks centred.
    pub open spec fn spec_idle() -> Self {
        RoutedPadInput { mask: 0, left_stick: None, right_stick: None }
    }

    /// Nothing held, both sticks centred.
    pub fn idle() -> (input: Self)
        ensures
            input == Self::spec_idle(),
    {
        RoutedPadInput { mask: 0, left_stick: None, right_stick: None }
    }

    /// The input with one more controller. Its sticks count only where nobody
    /// moved theirs so far.
    pub open spec fn merged(self, number: usize, sample: PadSample) -> Self {
        RoutedPadInput {
            mask: self.mask | sample.mask,
            left_stick: if self.left_stick is None && sample.left_moved {
                Some(number)
            } else {
                self.left_stick
            },
            right_stick: if self.right_stick is None && sample.right_moved {
                Some(number)
            } else {
                self.right_stick
            },
        }
    }

    /// Adds one more controller.
    pub fn merge(&mut self, number: usize, sample: PadSample)
        ensures
            *final(self) == old(self).merged(number, sample),
    {
        self.mask = self.mask | sample.mask;
        if self.left_stick.is_none() && sample.left_moved {
            self.left_stick = Some(number);
        }
        if self.right_stick.is_none() && sample.right_moved {
            self.right_stick = Some(number);
        }
    }
}

/// A controller came or went.
#[derive(Debug)]
pub enum InputNotice {
    Connected { name: String, mapping: String },
    Disconnected { name: String },
}

/// The text of a notice.
pub open spec fn notice_text(notice: InputNotice) -> Seq<char> {
    match notice {
        InputNotice::Connected { name, mapping } => "Gamepad connected: "@ + name@ + " ("@
            + mapping@ + ")"@,
        InputNotice::Disconnected { name } => "Gamepad disconnected: "@ + name@,
    }
}

impl InputNotice {
    /// The notice as a short text.
    pub fn message(&self) -> (text: String)
        ensures
            text@ == notice_text(*self),
    {
        match self {
            InputNotice::Connected { name, mapping } => {
                let mut text = String::from_str("Gamepad connected: ");
                text.append(name.as_str());
                text.append(" (");
                text.append(mapping.as_str());
                text.append(")");
                text
            },
            InputNotice::Disconnected { name } => {
                let mut text = String::from_str("Gamepad disconnected: ");
                text.append(name.as_str());
                text
            },
        }
    }
}

/// Everything that the controllers say this frame.
#[derive(Debug)]
pub struct InputFrame {
    pub notices: Vec<InputNotice>,
    /// What any controller holds, without a menu chord.
    pub pad1_mask: u16,
    pub port1: RoutedPadInput,
    pub port2: RoutedPadInput,
    /// What any controller holds since this frame.
    pub pressed_mask: u16,
    /// The menu chord is held since this frame.
    pub toggle_menu: bool,
    /// A mode button is held since this frame.
    pub analog_button: bool,
    pub menu_up: bool,
    pub menu_down: bool,
    pub menu_left: bool,
    pub menu_right: bool,
    pub menu_confirm: bool,
    pub menu_back: bool,
    /// The controller whose sticks fly the camera.
    pub sticks_from: Option<usize>,
}

impl InputFrame {
    /// A frame without any input.
    pub fn new(notices: Vec<InputNotice>) -> (frame: Self)
        ensures
            frame == (InputFrame {
                notices,
                pad1_mask: 0,
                port1: RoutedPadInput::spec_idle(),
                port2: RoutedPadInput::spec_idle(),
                pressed_mask: 0,
                toggle_menu: false,
                analog_button: false,
                menu_up: false,
                menu_down: false,
                menu_left: false,
                menu_right: false,
                menu_confirm: false,
                menu_back: false,
                sticks_from: None,
            }),
    {
        InputFrame {
            notices,
            pad1_mask: 0,
            port1: RoutedPadInput::idle(),
            port2: RoutedPadInput::idle(),
            pressed_mask: 0,
            toggle_menu: false,
            analog_button: false,
            menu_up: false,
            menu_down: false,
            menu_left: false,
            menu_right: false,
            menu_confirm: false,
            menu_back: false,
            sticks_from: None,
        }
    }
}

/// Bits that are set now and were not before.
pub fn rising_edges(previous: u16, now: u16) -> (edges: u16)
    ensures
        edges == now & !previous,
{
    now & !previous
}

/// The menu chord is held.
pub open spec fn chord_held(mask: u16) -> bool {
    mask & CHORD_MASK == CHORD_MASK
}

/// A mask without the menu chord, while the chord is held.
pub open spec fn without_chord(mask: u16, chord: bool) -> u16 {
    if chord {
        mask & !CHORD_MASK
    } else {
        mask
    }
}

/// The frame once what every controller holds is known.
pub open spec fn finished(
    frame: InputFrame,
    previous_mask: u16,
    previous_chord: bool,
    mask: u16,
) -> InputFrame {
    let chord = chord_held(mask);
    let pressed = mask & !previous_mask;
    InputFrame {
        pad1_mask: without_chord(mask, chord),
        port1: RoutedPadInput { mask: without_chord(frame.port1.mask, chord), ..frame.port1 },
        port2: RoutedPadInput { mask: without_chord(frame.port2.mask, chord), ..frame.port2 },
        pressed_mask: pressed,
        toggle_menu: chord && !previous_chord,
        menu_up: pressed & button::UP != 0,
        menu_down: pressed & button::DOWN != 0,
        menu_left: pressed & button::LEFT != 0,
        menu_right: pressed & button::RIGHT != 0,
        menu_confirm: pressed & button::CROSS != 0,
        menu_back: pressed & button::CIRCLE != 0,
        ..frame
    }
}

/// Completes a frame from what every controller holds, and keeps that for the
/// next frame.
pub fn finish_frame(
    frame: &mut InputFrame,
    previous_mask: &mut u16,
    previous_chord: &mut bool,
    mask: u16,
)
    ensures
        *final(frame) == finished(*old(frame), *old(previous_mask), *old(previous_chord), mask),
        *final(previous_mask) == mask,
        *final(previous_chord) == chord_held(mask),
{
    let chord = (mask & CHORD_MASK) == CHORD_MASK;
    let mut shown: u16 = mask;
    frame.toggle_menu = chord && !*previous_chord;
    if chord {
        shown = shown & !CHORD_MASK;
        frame.port1.mask = frame.port1.mask & !CHORD_MASK;
        frame.port2.mask = frame.port2.mask & !CHORD_MASK;
    }
    let pressed: u16 = rising_edges(*previous_mask, mask);
    frame.pressed_mask = pressed;
    frame.menu_up = pressed & button::UP != 0;
    frame.menu_down = pressed & button::DOWN != 0;
    frame.menu_left = pressed & button::LEFT != 0;
    frame.menu_right = pressed & button::RIGHT != 0;
    frame.menu_confirm = pressed & button::CROSS != 0;
    frame.menu_back = pressed & button::CIRCLE != 0;
    frame.pad1_mask = shown;
    *previous_mask = mask;
    *previous_chord = chord;
}

/// A held button is reported as pressed in the first frame only, and a menu
/// chord opens the menu once however long it is held.
pub proof fn law_holding_is_reported_once(
    first: InputFrame,
    second: InputFrame,
    previous_mask: u16,
    previous_chord: bool,
    mask: u16,
)
    ensures
        ({
            let then = finished(second, mask, chord_held(mask), mask);
            &&& then.pressed_mask == 0
            &&& !then.toggle_menu
            &&& !then.menu_up && !then.menu_down && !then.menu_left && !then.menu_right
            &&& !then.menu_confirm && !then.menu_back
            &&& then.pad1_mask == finished(first, previous_mask, previous_chord, mask).pad1_mask
        }),
{
    assert(mask & !mask == 0) by (bit_vector);
    assert(0u16 & 0x0010 == 0 && 0u16 & 0x0040 == 0 && 0u16 & 0x0080 == 0 && 0u16 & 0x0020 == 0
        && 0u16 & 0x4000 == 0 && 0u16 & 0x2000 == 0) by (bit_vector);
}

/// The guest never sees Select or Start while the menu chord is held.
pub proof fn law_chord_is_hidden_from_the_guest(
    frame: InputFrame,
    previous_mask: u16,
    previous_chord: bool,
    mask: u16,
)
    requires
        chord_held(mask),
    ensures
        ({
            let done = finished(frame, previous_mask, previous_chord, mask);
            &&& done.pad1_mask & (button::SELECT | button::START) == 0
            &&& done.port1.mask & (button::SELECT | button::START) == 0
            &&& done.port2.mask & (button::SELECT | button::START) == 0
        }),
{
    let one = frame.port1.mask;
    let two = frame.port2.mask;
    assert((mask & !0x0009u16) & (0x0001u16 | 0x0008u16) == 0 && (one & !0x0009u16) & (0x0001u16 | 0x0008u16)
        == 0 && (two & !0x0009u16) & (0x0001u16 | 0x0008u16) == 0) by (bit_vector);
}

/// A button that the menu is steered with.
pub open spec fn is_menu_button(bit: u16) -> bool {
    bit == button::UP || bit == button::DOWN || bit == button::LEFT || bit == button::RIGHT || bit
        == button::CROSS || bit == button::CIRCLE
}

proof fn lemma_edge(mask: u16, previous: u16, bit: u16)
    requires
        is_menu_button(bit),
    ensures
        ((mask & !previous) & bit != 0) <==> (mask & bit != 0 && previous & bit == 0),
{
    assert(((mask & !previous) & bit != 0) <==> (mask & bit != 0 && previous & bit == 0))
        by (bit_vector)
        requires
            bit == 0x0010 || bit == 0x0040 || bit == 0x0080 || bit == 0x0020 || bit == 0x4000 || bit
                == 0x2000,
    ;
}

/// The menu follows each button that is held now and was not before: the four
/// directions, Cross to confirm and Circle to go back.
pub proof fn law_menu_follows_new_presses(
    frame: InputFrame,
    previous_mask: u16,
    previous_chord: bool,
    mask: u16,
)
    ensures
        ({
            let done = finished(frame, previous_mask, previous_chord, mask);
            let new = |bit: u16| mask & bit != 0 && previous_mask & bit == 0;
            &&& done.menu_up <==> new(button::UP)
            &&& done.menu_down <==> new(button::DOWN)
            &&& done.menu_left <==> new(button::LEFT)
            &&& done.menu_right <==> new(button::RIGHT)
            &&& done.menu_confirm <==> new(button::CROSS)
            &&& done.menu_back <==> new(button::CIRCLE)
        }),
{
    lemma_edge(mask, previous_mask, button::UP);
    lemma_edge(mask, previous_mask, button::DOWN);
    lemma_edge(mask, previous_mask, button::LEFT);
    lemma_edge(mask, previous_mask, button::RIGHT);
    lemma_edge(mask, previous_mask, button::CROSS);
    lemma_edge(mask, previous_mask, button::CIRCLE);
}

/// The chord is Select and Start together. It hides those two and nothing else;
/// without it the guest sees every button, and the sticks stay with their ports
/// either way.
pub proof fn law_only_the_chord_is_hidden(
    frame: InputFrame,
    previous_mask: u16,
    previous_chord: bool,
    mask: u16,
)
    ensures
        ({
            let done = finished(frame, previous_mask, previous_chord, mask);
            let chord = button::SELECT | button::START;
            &&& chord_held(mask) <==> mask & button::SELECT != 0 && mask & button::START != 0
            &&& done.toggle_menu <==> chord_held(mask) && !previous_chord
            &&& done.pad1_mask & !chord == mask & !chord
            &&& done.port1.mask & !chord == frame.port1.mask & !chord
            &&& done.port2.mask & !chord == frame.port2.mask & !chord
            &&& !chord_held(mask) ==> done.pad1_mask == mask && done.port1 == frame.port1
                && done.port2 == frame.port2
            &&& done.port1.left_stick == frame.port1.left_stick && done.port1.right_stick
                == frame.port1.right_stick
            &&& done.port2.left_stick == frame.port2.left_stick && done.port2.right_stick
                == frame.port2.right_stick
        }),
{
    let one = frame.port1.mask;
    let two = frame.port2.mask;
    assert((mask & 0x0009 == 0x0009) <==> (mask & 0x0001 != 0 && mask & 0x0008 != 0)) by (bit_vector);
    assert((mask & !0x0009u16) & !(0x0001u16 | 0x0008u16) == mask & !(0x0001u16 | 0x0008u16) && (one
        & !0x0009u16) & !(0x0001u16 | 0x0008u16) == one & !(0x0001u16 | 0x0008u16) && (two
        & !0x0009u16) & !(0x0001u16 | 0x0008u16) == two & !(0x0001u16 | 0x0008u16)) by (bit_vector);
}

/// A port holds every button of the controllers that play on it, and takes each
/// stick of the first one that moves it.
pub proof fn law_ports_add_up_controllers(
    input: RoutedPadInput,
    number: usize,
    sample: PadSample,
    bits: u16,
)
    ensures
        ({
            let after = input.merged(number, sample);
            &&& (after.mask & bits != 0) <==> (input.mask & bits != 0 || sample.mask & bits != 0)
            &&& input.left_stick is Some ==> after.left_stick == input.left_stick
            &&& input.right_stick is Some ==> after.right_stick == input.right_stick
            &&& input.left_stick is None ==> after.left_stick == if sample.left_moved {
                Some(number)
            } else {
                None
            }
            &&& input.right_stick is None ==> after.right_stick == if sample.right_moved {
                Some(number)
            } else {
                None
            }
        }),
{
    let own = input.mask;
    let more = sample.mask;
    assert(((own | more) & bits != 0) <==> (own & bits != 0 || more & bits != 0)) by (bit_vector);
}

} // verus!
