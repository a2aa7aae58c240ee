//! Host controllers read as a button mask.

use crate::input::button;
use vstd::prelude::*;

verus! {

/// A stick pushed past its dead zone, by direction.
#[derive(Clone, Copy, Debug, PartialEq, Eq, Structural)]
pub struct StickPush {
    pub up: bool,
    pub down: bool,
    pub left: bool,
    pub right: bool,
}

/// Buttons of a host controller by position. The triggers count as held past
/// their threshold.
#[derive(Clone, Copy, Debug, PartialEq, Eq, Structural)]
pub struct PadButtons {
    pub south: bool,
    pub east: bool,
    pub west: bool,
    pub north: bool,
    pub left_trigger: bool,
    pub right_trigger: bool,
    pub left_trigger2: bool,
    pub right_trigger2: bool,
    pub left_thumb: bool,
    pub right_thumb: bool,
    pub dpad_up: bool,
    pub dpad_down: bool,
    pub dpad_left: bool,
    pub dpad_right: bool,
    pub select: bool,
    pub start: bool,
    /// The left stick.
    pub stick: StickPush,
}

/// A mask of the one button, if it is held.
pub open spec fn bit_if(held: bool, bit: u16) -> u16 {
    if held {
        bit
    } else {
        0
    }
}

fn held_bit(held: bool, bit: u16) -> (result: u16)
    ensures
        result == bit_if(held, bit),
{
    if held {
        bit
    } else {
        0
    }
}

/// The directions of a stick as directional buttons.
pub open spec fn stick_mask(stick: StickPush) -> u16 {
    bit_if(stick.up, button::UP) | bit_if(stick.down, button::DOWN) | bit_if(
        stick.left,
        button::LEFT,
    ) | bit_if(stick.right, button::RIGHT)
}

/// The face buttons.
pub open spec fn face_mask(pad: PadButtons) -> u16 {
    bit_if(pad.south, button::CROSS) | bit_if(pad.east, button::CIRCLE) | bit_if(
        pad.west,
        button::SQUARE,
    ) | bit_if(pad.north, button::TRIANGLE)
}

/// The shoulder buttons.
pub open spec fn shoulder_mask(pad: PadButtons) -> u16 {
    bit_if(pad.left_trigger, button::L1) | bit_if(pad.right_trigger, button::R1) | bit_if(
        pad.left_trigger2,
        button::L2,
    ) | bit_if(pad.right_trigger2, button::R2)
}

/// The directional buttons.
pub open spec fn dpad_mask(pad: PadButtons) -> u16 {
    bit_if(pad.dpad_up, button::UP) | bit_if(pad.dpad_down, button::DOWN) | bit_if(
        pad.dpad_left,
        button::LEFT,
    ) | bit_if(pad.dpad_right, button::RIGHT)
}

/// The mask of every button but the stick buttons.
pub open spec fn plain_mask(pad: PadButtons) -> u16 {
    face_mask(pad) | shoulder_mask(pad) | dpad_mask(pad) | stick_mask(pad.stick) | bit_if(
        pad.select,
        button::SELECT,
    ) | bit_if(pad.start, button::START)
}

/// The mask of every button, the stick buttons too.
pub open spec fn full_mask(pad: PadButtons) -> u16 {
    plain_mask(pad) | bit_if(pad.left_thumb, button::L3) | bit_if(pad.right_thumb, button::R3)
}

/// Adds the directions of a stick to a mask.
pub fn add_stick_dpad(mask: &mut u16, stick: StickPush)
    ensures
        *final(mask) == *old(mask) | stick_mask(stick),
{
    let directions: u16 = held_bit(stick.up, button::UP) | held_bit(stick.down, button::DOWN)
        | held_bit(stick.left, button::LEFT) | held_bit(stick.right, button::RIGHT);
    *mask = *mask | directions;
}

/// Reads the first controller, if there is one. The stick buttons are not
/// read.
pub fn poll_buttons(first: Option<PadButtons>) -> (mask: u16)
    ensures
        mask == match first {
            Some(pad) => plain_mask(pad),
            None => 0,
        },
{
    match first {
        None => 0,
        Some(pad) => {
            let face: u16 = held_bit(pad.south, button::CROSS) | held_bit(pad.east, button::CIRCLE)
                | held_bit(pad.west, button::SQUARE) | held_bit(pad.north, button::TRIANGLE);
            let shoulder: u16 = held_bit(pad.left_trigger, button::L1) | held_bit(
                pad.right_trigger,
                button::R1,
            ) | held_bit(pad.left_trigger2, button::L2) | held_bit(pad.right_trigger2, button::R2);
            let dpad: u16 = held_bit(pad.dpad_up, button::UP) | held_bit(
                pad.dpad_down,
                button::DOWN,
            ) | held_bit(pad.dpad_left, button::LEFT) | held_bit(pad.dpad_right, button::RIGHT);
            let mut mask: u16 = face | shoulder | dpad;
            add_stick_dpad(&mut mask, pad.stick);
            mask | held_bit(pad.select, button::SELECT) | held_bit(pad.start, button::START)
        },
    }
}

/// Reads a controller.
pub fn sample_native_pad(pad: PadButtons) -> (mask: u16)
    ensures
        mask == full_mask(pad),
{
    poll_buttons(Some(pad)) | held_bit(pad.left_thumb, button::L3) | held_bit(
        pad.right_thumb,
        button::R3,
    )
}

/// What a browser reports of a controller: buttons by number, and the left
/// stick.
#[derive(Debug)]
pub struct WebPadReport {
    pub pressed: Vec<bool>,
    pub stick: StickPush,
}

/// A numbered button is held; a button that is not reported is not.
pub open spec fn web_pressed(pressed: Seq<bool>, index: int) -> bool {
    0 <= index < pressed.len() && pressed[index]
}

/// A browser's button numbers by position.
pub open spec fn web_buttons(report: WebPadReport) -> PadButtons {
    let pressed = report.pressed@;
    PadButtons {
        south: web_pressed(pressed, 0),
        east: web_pressed(pressed, 1),
        west: web_pressed(pressed, 2),
        north: web_pressed(pressed, 3),
        left_trigger: web_pressed(pressed, 4),
        right_trigger: web_pressed(pressed, 5),
        left_trigger2: web_pressed(pressed, 6),
        right_trigger2: web_pressed(pressed, 7),
        select: web_pressed(pressed, 8),
        start: web_pressed(pressed, 9),
        left_thumb: web_pressed(pressed, 10),
        right_thumb: web_pressed(pressed, 11),
        dpad_up: web_pressed(pressed, 12),
        dpad_down: web_pressed(pressed, 13),
        dpad_left: web_pressed(pressed, 14),
        dpad_right: web_pressed(pressed, 15),
        stick: report.stick,
    }
}

fn web_button(pressed: &Vec<bool>, index: usize) -> (result: bool)
    ensures
        result == web_pressed(pressed@, index as int),
{
    index < pressed.len() && pressed[index]
}

/// Reads a controller that a browser reports, and its mode button.
pub fn sample_web_pad(report: &WebPadReport) -> (sample: (u16, bool))
    ensures
        sample.0 == full_mask(web_buttons(*report)),
        sample.1 == web_pressed(report.pressed@, 16),
{
    let pressed = &report.pressed;
    let pad = PadButtons {
        south: web_button(pressed, 0),
        east: web_button(pressed, 1),
        west: web_button(pressed, 2),
        north: web_button(pressed, 3),
        left_trigger: web_button(pressed, 4),
        right_trigger: web_button(pressed, 5),
        left_trigger2: web_button(pressed, 6),
        right_trigger2: web_button(pressed, 7),
        select: web_button(pressed, 8),
        start: web_button(pressed, 9),
        left_thumb: web_button(pressed, 10),
        right_thumb: web_button(pressed, 11),
        dpad_up: web_button(pressed, 12),
        dpad_down: web_button(pressed, 13),
        dpad_left: web_button(pressed, 14),
        dpad_right: web_button(pressed, 15),
        stick: report.stick,
    };
    (sample_native_pad(pad), web_button(pressed, 16))
}

/// Name of where a controller's layout comes from.
pub fn native_mapping_name(mapped: bool) -> (name: &'static str)
    ensures
        name@ == if mapped {
            "SDL mapping"@
        } else {
            "raw HID"@
        },
{
    if mapped {
        "SDL mapping"
    } else {
        "raw HID"
    }
}

/// A mask has a button of a set.
#[verifier::opaque]
pub open spec fn meets(mask: u16, buttons: u16) -> bool {
    mask & buttons != 0
}

proof fn lemma_meets_either(a: u16, b: u16, buttons: u16)
    ensures
        meets(a | b, buttons) == (meets(a, buttons) || meets(b, buttons)),
{
    reveal(meets);
    assert(((a | b) & buttons != 0) == (a & buttons != 0 || b & buttons != 0)) by (bit_vector);
}

/// One of four buttons.
spec fn any_of_four(
    a: bool,
    abit: u16,
    b: bool,
    bbit: u16,
    c: bool,
    cbit: u16,
    d: bool,
    dbit: u16,
    buttons: u16,
) -> bool {
    (a && meets(abit, buttons)) || (b && meets(bbit, buttons)) || (c && meets(cbit, buttons)) || (d
        && meets(dbit, buttons))
}

proof fn lemma_four(
    a: bool,
    abit: u16,
    b: bool,
    bbit: u16,
    c: bool,
    cbit: u16,
    d: bool,
    dbit: u16,
    buttons: u16,
)
    ensures
        meets(bit_if(a, abit) | bit_if(b, bbit) | bit_if(c, cbit) | bit_if(d, dbit), buttons)
            == any_of_four(a, abit, b, bbit, c, cbit, d, dbit, buttons),
{
    let x = bit_if(a, abit);
    let y = bit_if(b, bbit);
    let z = bit_if(c, cbit);
    let w = bit_if(d, dbit);
    lemma_meets_either(x | y | z, w, buttons);
    lemma_meets_either(x | y, z, buttons);
    lemma_meets_either(x, y, buttons);
    assert(!meets(0, buttons)) by {
        reveal(meets);
        assert(0u16 & buttons == 0) by (bit_vector);
    }
}

/// The mask has a button of a set exactly when a button that stands for it is
/// held, or the stick is pushed that way.
pub proof fn law_mask_shows_what_is_held(pad: PadButtons, buttons: u16)
    ensures
        meets(full_mask(pad), buttons) == {
            ||| pad.south && meets(button::CROSS, buttons)
            ||| pad.east && meets(button::CIRCLE, buttons)
            ||| pad.west && meets(button::SQUARE, buttons)
            ||| pad.north && meets(button::TRIANGLE, buttons)
            ||| pad.left_trigger && meets(button::L1, buttons)
            ||| pad.right_trigger && meets(button::R1, buttons)
            ||| pad.left_trigger2 && meets(button::L2, buttons)
            ||| pad.right_trigger2 && meets(button::R2, buttons)
            ||| pad.left_thumb && meets(button::L3, buttons)
            ||| pad.right_thumb && meets(button::R3, buttons)
            ||| pad.select && meets(button::SELECT, buttons)
            ||| pad.start && meets(button::START, buttons)
            ||| (pad.dpad_up || pad.stick.up) && meets(button::UP, buttons)
            ||| (pad.dpad_down || pad.stick.down) && meets(button::DOWN, buttons)
            ||| (pad.dpad_left || pad.stick.left) && meets(button::LEFT, buttons)
            ||| (pad.dpad_right || pad.stick.right) && meets(button::RIGHT, buttons)
        },
{
    let face = face_mask(pad);
    let shoulder = shoulder_mask(pad);
    let dpad = dpad_mask(pad);
    let stick = stick_mask(pad.stick);
    lemma_four(
        pad.south,
        button::CROSS,
        pad.east,
        button::CIRCLE,
        pad.west,
        button::SQUARE,
        pad.north,
        button::TRIANGLE,
        buttons,
    );
    lemma_four(
        pad.left_trigger,
        button::L1,
        pad.right_trigger,
        button::R1,
        pad.left_trigger2,
        button::L2,
        pad.right_trigger2,
        button::R2,
        buttons,
    );
    lemma_four(
        pad.dpad_up,
        button::UP,
        pad.dpad_down,
        button::DOWN,
        pad.dpad_left,
        button::LEFT,
        pad.dpad_right,
        button::RIGHT,
        buttons,
    );
    lemma_four(
        pad.stick.up,
        button::UP,
        pad.stick.down,
        button::DOWN,
        pad.stick.left,
        button::LEFT,
        pad.stick.right,
        button::RIGHT,
        buttons,
    );
    lemma_four(
        pad.select,
        button::SELECT,
        pad.start,
        button::START,
        pad.left_thumb,
        button::L3,
        pad.right_thumb,
        button::R3,
        buttons,
    );
    let select = bit_if(pad.select, button::SELECT);
    let start = bit_if(pad.start, button::START);
    let l3 = bit_if(pad.left_thumb, button::L3);
    let r3 = bit_if(pad.right_thumb, button::R3);
    assert(face | shoulder | dpad | stick | select | start | l3 | r3 == (face | shoulder | dpad
        | stick) | (select | start | l3 | r3)) by (bit_vector);
    lemma_meets_either(face | shoulder | dpad | stick, select | start | l3 | r3, buttons);
    lemma_meets_either(face | shoulder | dpad, stick, buttons);
    lemma_meets_either(face | shoulder, dpad, buttons);
    lemma_meets_either(face, shoulder, buttons);
}

/// The buttons of the standard layout by their numbers in a browser.
pub open spec fn web_order() -> Seq<u16> {
    seq![
        button::CROSS,
        button::CIRCLE,
        button::SQUARE,
        button::TRIANGLE,
        button::L1,
        button::R1,
        button::L2,
        button::R2,
        button::SELECT,
        button::START,
        button::L3,
        button::R3,
        button::UP,
        button::DOWN,
        button::LEFT,
        button::RIGHT,
    ]
}

/// A browser's controller holds a button exactly when the button of that number
/// is pressed, or the stick is pushed that way.
pub proof fn law_web_buttons_go_by_number(report: WebPadReport, buttons: u16)
    requires
        report.pressed@.len() >= 16,
        report.stick == (StickPush { up: false, down: false, left: false, right: false }),
    ensures
        meets(full_mask(web_buttons(report)), buttons) <==> exists|i: int|
            0 <= i < 16 && #[trigger] report.pressed@[i] && meets(web_order()[i], buttons),
{
    let pressed = report.pressed@;
    let order = web_order();
    law_mask_shows_what_is_held(web_buttons(report), buttons);
    if meets(full_mask(web_buttons(report)), buttons) {
        assert({
            ||| pressed[0] && meets(order[0], buttons)
            ||| pressed[1] && meets(order[1], buttons)
            ||| pressed[2] && meets(order[2], buttons)
            ||| pressed[3] && meets(order[3], buttons)
            ||| pressed[4] && meets(order[4], buttons)
            ||| pressed[5] && meets(order[5], buttons)
            ||| pressed[6] && meets(order[6], buttons)
            ||| pressed[7] && meets(order[7], buttons)
            ||| pressed[8] && meets(order[8], buttons)
            ||| pressed[9] && meets(order[9], buttons)
            ||| pressed[10] && meets(order[10], buttons)
            ||| pressed[11] && meets(order[11], buttons)
            ||| pressed[12] && meets(order[12], buttons)
            ||| pressed[13] && meets(order[13], buttons)
            ||| pressed[14] && meets(order[14], buttons)
            ||| pressed[15] && meets(order[15], buttons)
        });
    }
}

/// The first controller shows every button but the stick buttons.
pub proof fn law_stick_buttons_are_left_out(pad: PadButtons)
    ensures
        plain_mask(pad) == full_mask(PadButtons { left_thumb: false, right_thumb: false, ..pad }),
{
    let plain = plain_mask(pad);
    assert(plain | 0u16 | 0u16 == plain) by (bit_vector);
}

} // verus!
