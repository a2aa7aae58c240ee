//! The keyboard as a controller.

use crate::input::button;
use crate::input::keys::{binding_matches_key, binds, InputBinding, PhysicalKey};
use vstd::prelude::*;

verus! {

/// Both horizontal directions.
pub const HORIZONTAL: u16 = 0x00A0;

/// Both vertical directions.
pub const VERTICAL: u16 = 0x0050;

/// Keys of an emulated stick.
#[derive(Debug)]
pub struct StickBindings {
    pub up: InputBinding,
    pub down: InputBinding,
    pub left: InputBinding,
    pub right: InputBinding,
}

/// Keys of an emulated controller.
#[derive(Debug)]
pub struct PortBindings {
    pub up: InputBinding,
    pub down: InputBinding,
    pub left: InputBinding,
    pub right: InputBinding,
    pub cross: InputBinding,
    pub circle: InputBinding,
    pub square: InputBinding,
    pub triangle: InputBinding,
    pub l1: InputBinding,
    pub r1: InputBinding,
    pub l2: InputBinding,
    pub r2: InputBinding,
    pub start: InputBinding,
    pub select: InputBinding,
    pub l3: InputBinding,
    pub r3: InputBinding,
    pub analog: InputBinding,
    pub left_stick: StickBindings,
    pub right_stick: StickBindings,
}

/// The button of a key: the first one, in this order, that is bound to it.
pub open spec fn button_of_key(bindings: PortBindings, key: PhysicalKey) -> Option<u16> {
    if binds(bindings.up, key) {
        Some(button::UP)
    } else if binds(bindings.down, key) {
        Some(button::DOWN)
    } else if binds(bindings.left, key) {
        Some(button::LEFT)
    } else if binds(bindings.right, key) {
        Some(button::RIGHT)
    } else if binds(bindings.cross, key) {
        Some(button::CROSS)
    } else if binds(bindings.circle, key) {
        Some(button::CIRCLE)
    } else if binds(bindings.square, key) {
        Some(button::SQUARE)
    } else if binds(bindings.triangle, key) {
        Some(button::TRIANGLE)
    } else if binds(bindings.l1, key) {
        Some(button::L1)
    } else if binds(bindings.r1, key) {
        Some(button::R1)
    } else if binds(bindings.l2, key) {
        Some(button::L2)
    } else if binds(bindings.r2, key) {
        Some(button::R2)
    } else if binds(bindings.start, key) {
        Some(button::START)
    } else if binds(bindings.select, key) {
        Some(button::SELECT)
    } else if binds(bindings.r3, key) {
        Some(button::R3)
    } else if binds(bindings.l3, key) {
        Some(button::L3)
    } else {
        None
    }
}

/// The button that a key stands for.
pub fn key_to_pad_button(physical: PhysicalKey, bindings: &PortBindings) -> (mask: Option<u16>)
    ensures
        mask == button_of_key(*bindings, physical),
{
    if binding_matches_key(&bindings.up, physical) {
        Some(button::UP)
    } else if binding_matches_key(&bindings.down, physical) {
        Some(button::DOWN)
    } else if binding_matches_key(&bindings.left, physical) {
        Some(button::LEFT)
    } else if binding_matches_key(&bindings.right, physical) {
        Some(button::RIGHT)
    } else if binding_matches_key(&bindings.cross, physical) {
        Some(button::CROSS)
    } else if binding_matches_key(&bindings.circle, physical) {
        Some(button::CIRCLE)
    } else if binding_matches_key(&bindings.square, physical) {
        Some(button::SQUARE)
    } else if binding_matches_key(&bindings.triangle, physical) {
        Some(button::TRIANGLE)
    } else if binding_matches_key(&bindings.l1, physical) {
        Some(button::L1)
    } else if binding_matches_key(&bindings.r1, physical) {
        Some(button::R1)
    } else if binding_matches_key(&bindings.l2, physical) {
        Some(button::L2)
    } else if binding_matches_key(&bindings.r2, physical) {
        Some(button::R2)
    } else if binding_matches_key(&bindings.start, physical) {
        Some(button::START)
    } else if binding_matches_key(&bindings.select, physical) {
        Some(button::SELECT)
    } else if binding_matches_key(&bindings.r3, physical) {
        Some(button::R3)
    } else if binding_matches_key(&bindings.l3, physical) {
        Some(button::L3)
    } else {
        None
    }
}

/// Whether a key stands for the analog button.
pub fn key_is_analog_button(physical: PhysicalKey, bindings: &PortBindings) -> (result: bool)
    ensures
        result == binds(bindings.analog, physical),
{
    binding_matches_key(&bindings.analog, physical)
}

/// The held keys of an emulated stick.
#[derive(Clone, Copy, Debug, PartialEq, Eq, Structural)]
pub struct KeyboardStickState {
    pub up: bool,
    pub down: bool,
    pub left: bool,
    pub right: bool,
}

/// One axis of an emulated stick.
pub open spec fn axis_of(negative: bool, positive: bool) -> int {
    if negative == positive {
        0
    } else if positive {
        1
    } else {
        -1
    }
}

/// One axis of an emulated stick: the side that is held, and the centre when
/// both or neither are.
pub fn keyboard_axis(negative: bool, positive: bool) -> (axis: i8)
    ensures
        axis == axis_of(negative, positive),
{
    match (negative, positive) {
        (true, false) => -1,
        (false, true) => 1,
        _ => 0,
    }
}

/// One axis of the merged stick: the keyboard's while a key is held, else the
/// controller's.
pub fn merge_axis(keyboard: i8) -> (own: Option<i8>)
    ensures
        own == if keyboard != 0 {
            Some(keyboard)
        } else {
            None
        },
{
    if keyboard != 0 {
        Some(keyboard)
    } else {
        None
    }
}

/// Both axes of the merged stick.
pub fn merge_sticks(keyboard: (i8, i8)) -> (own: (Option<i8>, Option<i8>))
    ensures
        own.0 == if keyboard.0 != 0 {
            Some(keyboard.0)
        } else {
            None
        },
        own.1 == if keyboard.1 != 0 {
            Some(keyboard.1)
        } else {
            None
        },
{
    (merge_axis(keyboard.0), merge_axis(keyboard.1))
}

impl KeyboardStickState {
    /// No key held.
    pub open spec fn spec_idle() -> Self {
        KeyboardStickState { up: false, down: false, left: false, right: false }
    }

    /// The held keys after a key went down or up.
    pub open spec fn updated(
        self,
        key: PhysicalKey,
        pressed: bool,
        bindings: StickBindings,
    ) -> Self {
        KeyboardStickState {
            up: if binds(bindings.up, key) {
                pressed
            } else {
                self.up
            },
            down: if binds(bindings.down, key) {
                pressed
            } else {
                self.down
            },
            left: if binds(bindings.left, key) {
                pressed
            } else {
                self.left
            },
            right: if binds(bindings.right, key) {
                pressed
            } else {
                self.right
            },
        }
    }

    /// Follows a key that went down or up. Tells whether it is one of the
    /// stick's.
    pub fn update_key(
        &mut self,
        physical: PhysicalKey,
        pressed: bool,
        bindings: &StickBindings,
    ) -> (matched: bool)
        ensures
            *final(self) == old(self).updated(physical, pressed, *bindings),
            matched == (binds(bindings.up, physical) || binds(bindings.down, physical) || binds(
                bindings.left,
                physical,
            ) || binds(bindings.right, physical)),
    {
        let mut matched = false;
        if binding_matches_key(&bindings.up, physical) {
            self.up = pressed;
            matched = true;
        }
        if binding_matches_key(&bindings.down, physical) {
            self.down = pressed;
            matched = true;
        }
        if binding_matches_key(&bindings.left, physical) {
            self.left = pressed;
            matched = true;
        }
        if binding_matches_key(&bindings.right, physical) {
            self.right = pressed;
            matched = true;
        }
        matched
    }

    /// Where the stick points, right and up positive.
    pub fn vector(self) -> (vector: (i8, i8))
        ensures
            vector.0 == axis_of(self.left, self.right),
            vector.1 == axis_of(self.down, self.up),
    {
        (keyboard_axis(self.left, self.right), keyboard_axis(self.down, self.up))
    }
}

impl Default for KeyboardStickState {
    fn default() -> (state: Self)
        ensures
            state == KeyboardStickState::spec_idle(),
    {
        KeyboardStickState { up: false, down: false, left: false, right: false }
    }
}

/// A mask with a clash of two opposite directions replaced by the later one.
pub open spec fn clash_resolved(mask: u16, pair: u16, last: u16) -> u16 {
    if mask & pair == pair {
        (mask & !pair) | (last & pair)
    } else {
        mask
    }
}

/// A mask with both clashes replaced.
pub open spec fn clashes_resolved(mask: u16, last_horiz: u16, last_vert: u16) -> u16 {
    clash_resolved(clash_resolved(mask, HORIZONTAL, last_horiz), VERTICAL, last_vert)
}

/// Replaces opposite directions that are held together by the later of them,
/// or by neither where that is not known.
pub fn socd_resolve(mask: u16, last_horiz: u16, last_vert: u16) -> (resolved: u16)
    ensures
        resolved == clashes_resolved(mask, last_horiz, last_vert),
{
    let mut resolved: u16 = mask;
    if resolved & HORIZONTAL == HORIZONTAL {
        resolved = (resolved & !HORIZONTAL) | (last_horiz & HORIZONTAL);
    }
    if resolved & VERTICAL == VERTICAL {
        resolved = (resolved & !VERTICAL) | (last_vert & VERTICAL);
    }
    resolved
}

/// The later direction of a pair after some presses. Opposite presses that
/// come together leave it open.
pub open spec fn later_direction(last: u16, pressed: u16, one: u16, other: u16) -> u16 {
    let of_pair = pressed & (one | other);
    if of_pair == one {
        one
    } else if of_pair == other {
        other
    } else if of_pair == one | other {
        0
    } else {
        last
    }
}

/// Follows some presses.
pub fn update_socd_recency(last_horiz: &mut u16, last_vert: &mut u16, pressed: u16)
    ensures
        *final(last_horiz) == later_direction(
            *old(last_horiz),
            pressed,
            button::LEFT,
            button::RIGHT,
        ),
        *final(last_vert) == later_direction(*old(last_vert), pressed, button::UP, button::DOWN),
{
    let horizontal: u16 = pressed & (button::LEFT | button::RIGHT);
    if horizontal == button::LEFT {
        *last_horiz = button::LEFT;
    } else if horizontal == button::RIGHT {
        *last_horiz = button::RIGHT;
    } else if horizontal == button::LEFT | button::RIGHT {
        *last_horiz = 0;
    }
    let vertical: u16 = pressed & (button::UP | button::DOWN);
    if vertical == button::UP {
        *last_vert = button::UP;
    } else if vertical == button::DOWN {
        *last_vert = button::DOWN;
    } else if vertical == button::UP | button::DOWN {
        *last_vert = 0;
    }
}

/// Everything that the keyboard holds down for the guest.
#[derive(Clone, Copy, Debug, PartialEq, Eq, Structural)]
pub struct HostKeyboardInput {
    pub pad1_mask: u16,
    pub left_stick: KeyboardStickState,
    pub right_stick: KeyboardStickState,
    /// The later of left and right, if it is known.
    pub socd_last_horiz: u16,
    /// The later of up and down, if it is known.
    pub socd_last_vert: u16,
}

impl HostKeyboardInput {
    /// Nothing held.
    pub open spec fn spec_idle() -> Self {
        HostKeyboardInput {
            pad1_mask: 0,
            left_stick: KeyboardStickState::spec_idle(),
            right_stick: KeyboardStickState::spec_idle(),
            socd_last_horiz: 0,
            socd_last_vert: 0,
        }
    }

    /// At most one direction of each pair is the later one.
    pub open spec fn wf(self) -> bool {
        &&& self.socd_last_horiz == 0 || self.socd_last_horiz == button::LEFT
            || self.socd_last_horiz == button::RIGHT
        &&& self.socd_last_vert == 0 || self.socd_last_vert == button::UP || self.socd_last_vert
            == button::DOWN
    }

    /// The state after some presses, whatever device they came from.
    pub open spec fn noted(self, pressed: u16) -> Self {
        HostKeyboardInput {
            socd_last_horiz: later_direction(
                self.socd_last_horiz,
                pressed,
                button::LEFT,
                button::RIGHT,
            ),
            socd_last_vert: later_direction(
                self.socd_last_vert,
                pressed,
                button::UP,
                button::DOWN,
            ),
            ..self
        }
    }

    /// The state after a key went down or up.
    pub open spec fn after_key(
        self,
        key: PhysicalKey,
        pressed: bool,
        bindings: PortBindings,
    ) -> Self {
        let buttons = match button_of_key(bindings, key) {
            Some(mask) => if pressed {
                HostKeyboardInput { pad1_mask: self.pad1_mask | mask, ..self.noted(mask) }
            } else {
                HostKeyboardInput { pad1_mask: self.pad1_mask & !mask, ..self }
            },
            None => self,
        };
        HostKeyboardInput {
            left_stick: self.left_stick.updated(key, pressed, bindings.left_stick),
            right_stick: self.right_stick.updated(key, pressed, bindings.right_stick),
            ..buttons
        }
    }

    /// Lets go of everything.
    pub fn clear(&mut self)
        ensures
            *final(self) == Self::spec_idle(),
            final(self).wf(),
    {
        *self = HostKeyboardInput::default();
    }

    /// Follows a key that went down or up.
    pub fn apply_key_event(
        &mut self,
        physical: PhysicalKey,
        pressed: bool,
        bindings: &PortBindings,
    )
        ensures
            *final(self) == old(self).after_key(physical, pressed, *bindings),
            old(self).wf() ==> final(self).wf(),
    {
        if let Some(mask) = key_to_pad_button(physical, bindings) {
            if pressed {
                self.pad1_mask = self.pad1_mask | mask;
                update_socd_recency(&mut self.socd_last_horiz, &mut self.socd_last_vert, mask);
            } else {
                self.pad1_mask = self.pad1_mask & !mask;
            }
        }
        let left = self.left_stick.update_key(physical, pressed, &bindings.left_stick);
        let right = self.right_stick.update_key(physical, pressed, &bindings.right_stick);
    }

    /// Follows the buttons that a controller holds since this frame.
    pub fn note_gamepad_edges(&mut self, pressed_mask: u16)
        ensures
            *final(self) == old(self).noted(pressed_mask),
            old(self).wf() ==> final(self).wf(),
    {
        update_socd_recency(&mut self.socd_last_horiz, &mut self.socd_last_vert, pressed_mask);
    }

    /// What the guest sees of the keyboard and a controller together.
    pub fn resolved_mask(&self, gamepad_mask: u16) -> (mask: u16)
        ensures
            mask == clashes_resolved(
                self.pad1_mask | gamepad_mask,
                self.socd_last_horiz,
                self.socd_last_vert,
            ),
    {
        socd_resolve(self.pad1_mask | gamepad_mask, self.socd_last_horiz, self.socd_last_vert)
    }
}

impl Default for HostKeyboardInput {
    fn default() -> (state: Self)
        ensures
            state == HostKeyboardInput::spec_idle(),
    {
        HostKeyboardInput {
            pad1_mask: 0,
            left_stick: KeyboardStickState::default(),
            right_stick: KeyboardStickState::default(),
            socd_last_horiz: 0,
            socd_last_vert: 0,
        }
    }
}

/// The guest never sees opposite directions together, sees every other button
/// as it is held, and sees no direction that is not held. It sees each direction
/// as it is held where the opposite one is not held too.
pub proof fn law_guest_sees_no_clash(input: HostKeyboardInput, gamepad_mask: u16)
    requires
        input.wf(),
    ensures
        ({
            let held = input.pad1_mask | gamepad_mask;
            let seen = clashes_resolved(held, input.socd_last_horiz, input.socd_last_vert);
            &&& seen & HORIZONTAL != HORIZONTAL
            &&& seen & VERTICAL != VERTICAL
            &&& seen & !(HORIZONTAL | VERTICAL) == held & !(HORIZONTAL | VERTICAL)
            &&& seen & !held == 0
            &&& held & HORIZONTAL != HORIZONTAL ==> seen & HORIZONTAL == held & HORIZONTAL
            &&& held & VERTICAL != VERTICAL ==> seen & VERTICAL == held & VERTICAL
        }),
{
    let held = input.pad1_mask | gamepad_mask;
    let horiz = input.socd_last_horiz;
    let vert = input.socd_last_vert;
    let first = clash_resolved(held, HORIZONTAL, horiz);
    let seen = clash_resolved(first, VERTICAL, vert);
    assert(seen & 0x00A0 != 0x00A0 && seen & 0x0050 != 0x0050 && seen & !(0x00A0u16 | 0x0050u16)
        == held & !(0x00A0u16 | 0x0050u16) && seen & !held == 0 && (held & 0x00A0 != 0x00A0 ==> seen
        & 0x00A0 == held & 0x00A0) && (held & 0x0050 != 0x0050 ==> seen & 0x0050 == held
        & 0x0050)) by (bit_vector)
        requires
            horiz == 0 || horiz == 0x0080 || horiz == 0x0020,
            vert == 0 || vert == 0x0010 || vert == 0x0040,
            first == if held & 0x00A0 == 0x00A0 {
                (held & !0x00A0) | (horiz & 0x00A0)
            } else {
                held
            },
            seen == if first & 0x0050 == 0x0050 {
                (first & !0x0050) | (vert & 0x0050)
            } else {
                first
            },
    ;
}

/// A direction that goes down wins over the opposite one that is held, from
/// either device.
pub proof fn law_later_direction_wins(
    input: HostKeyboardInput,
    gamepad_mask: u16,
    direction: u16,
    opposite: u16,
)
    requires
        input.wf(),
        (direction == button::LEFT && opposite == button::RIGHT) || (direction == button::RIGHT
            && opposite == button::LEFT) || (direction == button::UP && opposite == button::DOWN)
            || (direction == button::DOWN && opposite == button::UP),
        (input.pad1_mask | gamepad_mask) & direction != 0,
    ensures
        ({
            let after = input.noted(direction);
            let seen = clashes_resolved(
                after.pad1_mask | gamepad_mask,
                after.socd_last_horiz,
                after.socd_last_vert,
            );
            &&& seen & direction == direction
            &&& seen & opposite == 0
        }),
{
    let held = input.pad1_mask | gamepad_mask;
    let after = input.noted(direction);
    let horiz = after.socd_last_horiz;
    let vert = after.socd_last_vert;
    let first = clash_resolved(held, HORIZONTAL, horiz);
    let seen = clash_resolved(first, VERTICAL, vert);
    assert(0x0080u16 & (0x0080u16 | 0x0020u16) == 0x0080 && 0x0020u16 & (0x0080u16 | 0x0020u16)
        == 0x0020 && 0x0010u16 & (0x0010u16 | 0x0040u16) == 0x0010 && 0x0040u16 & (0x0010u16
        | 0x0040u16) == 0x0040) by (bit_vector);
    assert(seen & direction == direction && seen & opposite == 0) by (bit_vector)
        requires
            (direction == 0x0080 && opposite == 0x0020 && horiz == direction) || (direction
                == 0x0020 && opposite == 0x0080 && horiz == direction) || (direction == 0x0010
                && opposite == 0x0040 && vert == direction) || (direction == 0x0040 && opposite
                == 0x0010 && vert == direction),
            held & direction != 0,
            first == if held & 0x00A0 == 0x00A0 {
                (held & !0x00A0) | (horiz & 0x00A0)
            } else {
                held
            },
            seen == if first & 0x0050 == 0x0050 {
                (first & !0x0050) | (vert & 0x0050)
            } else {
                first
            },
    ;
}

/// The bindings of the buttons, in the order in which they are tried.
pub open spec fn button_bindings(bindings: PortBindings) -> Seq<(InputBinding, u16)> {
    seq![
        (bindings.up, button::UP),
        (bindings.down, button::DOWN),
        (bindings.left, button::LEFT),
        (bindings.right, button::RIGHT),
        (bindings.cross, button::CROSS),
        (bindings.circle, button::CIRCLE),
        (bindings.square, button::SQUARE),
        (bindings.triangle, button::TRIANGLE),
        (bindings.l1, button::L1),
        (bindings.r1, button::R1),
        (bindings.l2, button::L2),
        (bindings.r2, button::R2),
        (bindings.start, button::START),
        (bindings.select, button::SELECT),
        (bindings.r3, button::R3),
        (bindings.l3, button::L3),
    ]
}

/// A key is the button of the first binding that names it, and no button where
/// none does.
pub proof fn law_keys_are_the_buttons_they_are_bound_to(
    bindings: PortBindings,
    key: PhysicalKey,
    i: int,
)
    requires
        0 <= i < 16,
        forall|j: int| 0 <= j < i ==> !binds((#[trigger] button_bindings(bindings)[j]).0, key),
    ensures
        binds(button_bindings(bindings)[i].0, key) ==> button_of_key(bindings, key) == Some(
            button_bindings(bindings)[i].1,
        ),
        i == 15 && !binds(button_bindings(bindings)[i].0, key) ==> button_of_key(bindings, key)
            is None,
{
    let list = button_bindings(bindings);
    assert(i > 0 ==> !binds(list[0].0, key));
    assert(i > 1 ==> !binds(list[1].0, key));
    assert(i > 2 ==> !binds(list[2].0, key));
    assert(i > 3 ==> !binds(list[3].0, key));
    assert(i > 4 ==> !binds(list[4].0, key));
    assert(i > 5 ==> !binds(list[5].0, key));
    assert(i > 6 ==> !binds(list[6].0, key));
    assert(i > 7 ==> !binds(list[7].0, key));
    assert(i > 8 ==> !binds(list[8].0, key));
    assert(i > 9 ==> !binds(list[9].0, key));
    assert(i > 10 ==> !binds(list[10].0, key));
    assert(i > 11 ==> !binds(list[11].0, key));
    assert(i > 12 ==> !binds(list[12].0, key));
    assert(i > 13 ==> !binds(list[13].0, key));
    assert(i > 14 ==> !binds(list[14].0, key));
}

/// A key holds its button from when it goes down until it comes up, and moves
/// no other; one that is bound to no button moves none.
pub proof fn law_keys_hold_their_buttons(
    input: HostKeyboardInput,
    key: PhysicalKey,
    bindings: PortBindings,
)
    ensures
        ({
            let down = input.after_key(key, true, bindings);
            let up = down.after_key(key, false, bindings);
            match button_of_key(bindings, key) {
                Some(mask) => {
                    &&& down.pad1_mask & mask == mask
                    &&& down.pad1_mask & !mask == input.pad1_mask & !mask
                    &&& up.pad1_mask & mask == 0
                    &&& up.pad1_mask & !mask == input.pad1_mask & !mask
                },
                None => down.pad1_mask == input.pad1_mask && up.pad1_mask == input.pad1_mask
                    && up.socd_last_horiz == input.socd_last_horiz && up.socd_last_vert
                    == input.socd_last_vert,
            }
        }),
        ({
            let down = input.after_key(key, true, bindings).left_stick;
            let up = input.after_key(key, false, bindings).left_stick;
            let keys = bindings.left_stick;
            &&& binds(keys.up, key) ==> down.up && !up.up
            &&& binds(keys.down, key) ==> down.down && !up.down
            &&& binds(keys.left, key) ==> down.left && !up.left
            &&& binds(keys.right, key) ==> down.right && !up.right
            &&& !binds(keys.up, key) && !binds(keys.down, key) && !binds(keys.left, key) && !binds(
                keys.right,
                key,
            ) ==> down == input.left_stick && up == input.left_stick
        }),
        ({
            let down = input.after_key(key, true, bindings).right_stick;
            let up = input.after_key(key, false, bindings).right_stick;
            let keys = bindings.right_stick;
            &&& binds(keys.up, key) ==> down.up && !up.up
            &&& binds(keys.down, key) ==> down.down && !up.down
            &&& binds(keys.left, key) ==> down.left && !up.left
            &&& binds(keys.right, key) ==> down.right && !up.right
            &&& !binds(keys.up, key) && !binds(keys.down, key) && !binds(keys.left, key) && !binds(
                keys.right,
                key,
            ) ==> down == input.right_stick && up == input.right_stick
        }),
{
    if let Some(mask) = button_of_key(bindings, key) {
        let held = input.pad1_mask;
        assert((held | mask) & mask == mask && (held | mask) & !mask == held & !mask && ((held
            | mask) & !mask) & mask == 0 && ((held | mask) & !mask) & !mask == held & !mask)
            by (bit_vector);
    }
}

/// Opposite keys cancel out, one key alone pushes all the way, and turning the
/// keys round turns the push round.
pub proof fn law_opposite_keys_cancel(negative: bool, positive: bool)
    ensures
        axis_of(negative, positive) == -axis_of(positive, negative),
        negative && positive ==> axis_of(negative, positive) == 0,
        positive && !negative ==> axis_of(negative, positive) == 1,
        !positive && !negative ==> axis_of(negative, positive) == 0,
{
}

/// Presses of other buttons leave the later direction of a pair, and both
/// directions pressed at once leave none.
pub proof fn law_only_directions_count_as_later(last: u16, pressed: u16)
    ensures
        pressed & HORIZONTAL == 0 ==> later_direction(last, pressed, button::LEFT, button::RIGHT)
            == last,
        pressed & HORIZONTAL == HORIZONTAL ==> later_direction(
            last,
            pressed,
            button::LEFT,
            button::RIGHT,
        ) == 0,
        pressed & VERTICAL == 0 ==> later_direction(last, pressed, button::UP, button::DOWN) == last,
        pressed & VERTICAL == VERTICAL ==> later_direction(
            last,
            pressed,
            button::UP,
            button::DOWN,
        ) == 0,
{
    assert(0x0080u16 | 0x0020u16 == 0x00A0 && 0x0010u16 | 0x0040u16 == 0x0050) by (bit_vector);
}

/// A keyboard at rest holds no button, pushes no stick and remembers no
/// direction: the guest sees of it what the controller holds, but for clashes,
/// which it leaves open.
pub proof fn law_idle_keyboard_holds_nothing(gamepad_mask: u16)
    ensures
        ({
            let idle = HostKeyboardInput::spec_idle();
            let seen = clashes_resolved(
                idle.pad1_mask | gamepad_mask,
                idle.socd_last_horiz,
                idle.socd_last_vert,
            );
            &&& idle.wf()
            &&& axis_of(idle.left_stick.left, idle.left_stick.right) == 0
            &&& axis_of(idle.left_stick.down, idle.left_stick.up) == 0
            &&& idle.left_stick == idle.right_stick && !idle.left_stick.left
                && !idle.left_stick.up
            &&& gamepad_mask & HORIZONTAL == 0 && gamepad_mask & VERTICAL == 0 ==> seen
                == gamepad_mask
        }),
{
    assert(0u16 | gamepad_mask == gamepad_mask) by (bit_vector);
}

} // verus!
