//! What a frame hands to the menu and to the guest.

use crate::input::button;
use crate::input::frame::{InputFrame, RoutedPadInput};
use crate::input::keyboard::{axis_of, clashes_resolved, merge_sticks, HostKeyboardInput};
use crate::input::routing::PsxPort;
use vstd::prelude::*;

verus! {

/// A control that a key can be bound to.
#[derive(Clone, Copy, Debug, PartialEq, Eq, Structural)]
pub enum PadBindTarget {
    Up,
    Down,
    Left,
    Right,
    Cross,
    Circle,
    Square,
    Triangle,
    L1,
    L2,
    R1,
    R2,
    Start,
    Select,
    L3,
    R3,
    LStickUp,
    LStickDown,
    LStickLeft,
    LStickRight,
    RStickUp,
    RStickDown,
    RStickLeft,
    RStickRight,
}

/// The control, if it is held.
pub open spec fn if_held(held: bool, target: PadBindTarget) -> Seq<PadBindTarget> {
    if held {
        seq![target]
    } else {
        Seq::empty()
    }
}

/// Those of four controls that are held.
#[verifier::opaque]
pub open spec fn held_of(
    a: (bool, PadBindTarget),
    b: (bool, PadBindTarget),
    c: (bool, PadBindTarget),
    d: (bool, PadBindTarget),
) -> Seq<PadBindTarget> {
    if_held(a.0, a.1) + if_held(b.0, b.1) + if_held(c.0, c.1) + if_held(d.0, d.1)
}

/// Every control that is held: buttons of the mask, then directions of the
/// emulated sticks.
pub open spec fn held_controls(mask: u16, host: HostKeyboardInput) -> Seq<PadBindTarget> {
    held_of(
        (mask & button::UP != 0, PadBindTarget::Up),
        (mask & button::DOWN != 0, PadBindTarget::Down),
        (mask & button::LEFT != 0, PadBindTarget::Left),
        (mask & button::RIGHT != 0, PadBindTarget::Right),
    ) + held_of(
        (mask & button::CROSS != 0, PadBindTarget::Cross),
        (mask & button::CIRCLE != 0, PadBindTarget::Circle),
        (mask & button::SQUARE != 0, PadBindTarget::Square),
        (mask & button::TRIANGLE != 0, PadBindTarget::Triangle),
    ) + held_of(
        (mask & button::L1 != 0, PadBindTarget::L1),
        (mask & button::L2 != 0, PadBindTarget::L2),
        (mask & button::R1 != 0, PadBindTarget::R1),
        (mask & button::R2 != 0, PadBindTarget::R2),
    ) + held_of(
        (mask & button::START != 0, PadBindTarget::Start),
        (mask & button::SELECT != 0, PadBindTarget::Select),
        (mask & button::L3 != 0, PadBindTarget::L3),
        (mask & button::R3 != 0, PadBindTarget::R3),
    ) + held_of(
        (host.left_stick.up, PadBindTarget::LStickUp),
        (host.left_stick.down, PadBindTarget::LStickDown),
        (host.left_stick.left, PadBindTarget::LStickLeft),
        (host.left_stick.right, PadBindTarget::LStickRight),
    ) + held_of(
        (host.right_stick.up, PadBindTarget::RStickUp),
        (host.right_stick.down, PadBindTarget::RStickDown),
        (host.right_stick.left, PadBindTarget::RStickLeft),
        (host.right_stick.right, PadBindTarget::RStickRight),
    )
}

fn push_held(held: &mut Vec<PadBindTarget>, control: (bool, PadBindTarget))
    ensures
        final(held)@ == old(held)@ + if_held(control.0, control.1),
{
    if control.0 {
        held.push(control.1);
        assert(held@ =~= old(held)@ + seq![control.1]);
    } else {
        assert(held@ =~= old(held)@ + Seq::<PadBindTarget>::empty());
    }
}

fn push_held_of(
    held: &mut Vec<PadBindTarget>,
    a: (bool, PadBindTarget),
    b: (bool, PadBindTarget),
    c: (bool, PadBindTarget),
    d: (bool, PadBindTarget),
)
    ensures
        final(held)@ == old(held)@ + held_of(a, b, c, d),
{
    reveal(held_of);
    push_held(held, a);
    push_held(held, b);
    push_held(held, c);
    push_held(held, d);
    assert(held@ =~= old(held)@ + (if_held(a.0, a.1) + if_held(b.0, b.1) + if_held(c.0, c.1)
        + if_held(d.0, d.1)));
}

/// Every control that is held.
pub fn held_targets(mask: u16, host: &HostKeyboardInput) -> (held: Vec<PadBindTarget>)
    ensures
        held@ == held_controls(mask, *host),
{
    let mut held: Vec<PadBindTarget> = Vec::new();
    push_held_of(
        &mut held,
        (mask & button::UP != 0, PadBindTarget::Up),
        (mask & button::DOWN != 0, PadBindTarget::Down),
        (mask & button::LEFT != 0, PadBindTarget::Left),
        (mask & button::RIGHT != 0, PadBindTarget::Right),
    );
    push_held_of(
        &mut held,
        (mask & button::CROSS != 0, PadBindTarget::Cross),
        (mask & button::CIRCLE != 0, PadBindTarget::Circle),
        (mask & button::SQUARE != 0, PadBindTarget::Square),
        (mask & button::TRIANGLE != 0, PadBindTarget::Triangle),
    );
    push_held_of(
        &mut held,
        (mask & button::L1 != 0, PadBindTarget::L1),
        (mask & button::L2 != 0, PadBindTarget::L2),
        (mask & button::R1 != 0, PadBindTarget::R1),
        (mask & button::R2 != 0, PadBindTarget::R2),
    );
    push_held_of(
        &mut held,
        (mask & button::START != 0, PadBindTarget::Start),
        (mask & button::SELECT != 0, PadBindTarget::Select),
        (mask & button::L3 != 0, PadBindTarget::L3),
        (mask & button::R3 != 0, PadBindTarget::R3),
    );
    push_held_of(
        &mut held,
        (host.left_stick.up, PadBindTarget::LStickUp),
        (host.left_stick.down, PadBindTarget::LStickDown),
        (host.left_stick.left, PadBindTarget::LStickLeft),
        (host.left_stick.right, PadBindTarget::LStickRight),
    );
    push_held_of(
        &mut held,
        (host.right_stick.up, PadBindTarget::RStickUp),
        (host.right_stick.down, PadBindTarget::RStickDown),
        (host.right_stick.left, PadBindTarget::RStickLeft),
        (host.right_stick.right, PadBindTarget::RStickRight),
    );
    held
}

/// The player does something with a controller or the keyboard's.
pub fn pad_is_active(
    mask: u16,
    analog_button: bool,
    left_moved: bool,
    right_moved: bool,
) -> (active: bool)
    ensures
        active == (mask != 0 || analog_button || left_moved || right_moved),
{
    mask != 0 || analog_button || left_moved || right_moved
}

/// A stick of a guest controller: each axis is the keyboard's where it gives
/// one, else that of a sampled controller's stick, else the centre.
#[derive(Clone, Copy, Debug, PartialEq, Eq)]
pub struct GuestStick {
    pub pad: Option<usize>,
    pub keyboard_x: Option<i8>,
    pub keyboard_y: Option<i8>,
}

/// What a guest controller reports.
#[derive(Clone, Copy, Debug, PartialEq, Eq)]
pub struct GuestPad {
    pub mask: u16,
    pub left_stick: GuestStick,
    pub right_stick: GuestStick,
}

/// An axis that the keyboard moves.
pub open spec fn keyboard_part(negative: bool, positive: bool) -> Option<i8> {
    if axis_of(negative, positive) == 0 {
        None
    } else {
        Some(axis_of(negative, positive) as i8)
    }
}

/// A controller at rest.
pub open spec fn neutral_pad() -> GuestPad {
    pad_alone(RoutedPadInput::spec_idle())
}

/// What a guest controller reports of the routed controllers alone.
pub open spec fn pad_alone(routed: RoutedPadInput) -> GuestPad {
    GuestPad {
        mask: routed.mask,
        left_stick: GuestStick { pad: routed.left_stick, keyboard_x: None, keyboard_y: None },
        right_stick: GuestStick { pad: routed.right_stick, keyboard_x: None, keyboard_y: None },
    }
}

/// What a guest controller reports of the routed controllers and the keyboard.
pub open spec fn pad_with_keyboard(routed: RoutedPadInput, host: HostKeyboardInput) -> GuestPad {
    GuestPad {
        mask: clashes_resolved(
            host.pad1_mask | routed.mask,
            host.socd_last_horiz,
            host.socd_last_vert,
        ),
        left_stick: GuestStick {
            pad: routed.left_stick,
            keyboard_x: keyboard_part(host.left_stick.left, host.left_stick.right),
            keyboard_y: keyboard_part(host.left_stick.down, host.left_stick.up),
        },
        right_stick: GuestStick {
            pad: routed.right_stick,
            keyboard_x: keyboard_part(host.right_stick.left, host.right_stick.right),
            keyboard_y: keyboard_part(host.right_stick.down, host.right_stick.up),
        },
    }
}

/// What a guest port reports.
pub open spec fn guest_pad(
    routed: RoutedPadInput,
    host: HostKeyboardInput,
    has_keyboard: bool,
    freelook: bool,
) -> GuestPad {
    if freelook {
        neutral_pad()
    } else if has_keyboard {
        pad_with_keyboard(routed, host)
    } else {
        pad_alone(routed)
    }
}

fn report(
    routed: RoutedPadInput,
    host: &HostKeyboardInput,
    has_keyboard: bool,
    freelook: bool,
) -> (pad: GuestPad)
    ensures
        pad == guest_pad(routed, *host, has_keyboard, freelook),
{
    if freelook {
        return GuestPad {
            mask: 0,
            left_stick: GuestStick { pad: None, keyboard_x: None, keyboard_y: None },
            right_stick: GuestStick { pad: None, keyboard_x: None, keyboard_y: None },
        };
    }
    if !has_keyboard {
        return GuestPad {
            mask: routed.mask,
            left_stick: GuestStick { pad: routed.left_stick, keyboard_x: None, keyboard_y: None },
            right_stick: GuestStick { pad: routed.right_stick, keyboard_x: None, keyboard_y: None },
        };
    }
    let left = merge_sticks(host.left_stick.vector());
    let right = merge_sticks(host.right_stick.vector());
    GuestPad {
        mask: host.resolved_mask(routed.mask),
        left_stick: GuestStick { pad: routed.left_stick, keyboard_x: left.0, keyboard_y: left.1 },
        right_stick: GuestStick {
            pad: routed.right_stick,
            keyboard_x: right.0,
            keyboard_y: right.1,
        },
    }
}

/// What both guest ports report this frame. The keyboard goes to its port;
/// while the free camera has the controllers, both ports are at rest.
pub fn guest_ports(
    frame: &InputFrame,
    host: &HostKeyboardInput,
    keyboard_port: PsxPort,
    freelook: bool,
) -> (ports: (GuestPad, GuestPad))
    ensures
        ports.0 == guest_pad(frame.port1, *host, keyboard_port == PsxPort::One, freelook),
        ports.1 == guest_pad(frame.port2, *host, keyboard_port == PsxPort::Two, freelook),
{
    (
        report(frame.port1, host, keyboard_port == PsxPort::One, freelook),
        report(frame.port2, host, keyboard_port == PsxPort::Two, freelook),
    )
}

/// With the free camera on, the guest sees nothing of any device.
pub proof fn law_free_camera_hides_everything(
    routed: RoutedPadInput,
    host: HostKeyboardInput,
    has_keyboard: bool,
)
    ensures
        guest_pad(routed, host, has_keyboard, true) == neutral_pad(),
        neutral_pad().mask == 0,
        neutral_pad().left_stick.pad is None,
        neutral_pad().right_stick.pad is None,
{
}

/// Machine and routes as they were last applied.
#[derive(Clone, Copy, Debug, PartialEq, Eq, Structural)]
pub struct LayoutStamp {
    pub machine: u64,
    pub routes: u64,
}

/// Whether the controllers of the guest have to be plugged anew: the machine
/// or the routes changed since.
pub fn layout_is_due(applied: &mut Option<LayoutStamp>, now: LayoutStamp) -> (due: bool)
    ensures
        due == (*old(applied) != Some(now)),
        *final(applied) == Some(now),
{
    let due = match *applied {
        Some(stamp) => stamp != now,
        None => true,
    };
    *applied = Some(now);
    due
}

/// What one frame of the machine adds to the counters of the profile.
#[derive(Clone, Copy, Debug, PartialEq, Eq, Structural)]
pub struct FrameCounts {
    /// The frame was drawn.
    pub draw_vblank: bool,
    /// The frame ran out of steps.
    pub step_cap_miss: bool,
    /// Controller reads that the guest completed in the frame.
    pub polls: u64,
}

/// What one frame of the machine adds.
pub fn frame_counts(
    vblanks: u64,
    has_draw: bool,
    hit_step_cap: bool,
    polls_before: u64,
    polls_after: u64,
) -> (counts: FrameCounts)
    ensures
        counts.draw_vblank == (vblanks > 0 && has_draw),
        counts.step_cap_miss == hit_step_cap,
        counts.polls == if polls_after >= polls_before {
            polls_after - polls_before
        } else {
            0
        },
{
    FrameCounts {
        draw_vblank: vblanks > 0 && has_draw,
        step_cap_miss: hit_step_cap,
        polls: polls_after.saturating_sub(polls_before),
    }
}

/// A control is held: a button by the mask, a stick by the keyboard.
pub open spec fn is_held(target: PadBindTarget, mask: u16, host: HostKeyboardInput) -> bool {
    match target {
        PadBindTarget::Up => mask & button::UP != 0,
        PadBindTarget::Down => mask & button::DOWN != 0,
        PadBindTarget::Left => mask & button::LEFT != 0,
        PadBindTarget::Right => mask & button::RIGHT != 0,
        PadBindTarget::Cross => mask & button::CROSS != 0,
        PadBindTarget::Circle => mask & button::CIRCLE != 0,
        PadBindTarget::Square => mask & button::SQUARE != 0,
        PadBindTarget::Triangle => mask & button::TRIANGLE != 0,
        PadBindTarget::L1 => mask & button::L1 != 0,
        PadBindTarget::L2 => mask & button::L2 != 0,
        PadBindTarget::R1 => mask & button::R1 != 0,
        PadBindTarget::R2 => mask & button::R2 != 0,
        PadBindTarget::Start => mask & button::START != 0,
        PadBindTarget::Select => mask & button::SELECT != 0,
        PadBindTarget::L3 => mask & button::L3 != 0,
        PadBindTarget::R3 => mask & button::R3 != 0,
        PadBindTarget::LStickUp => host.left_stick.up,
        PadBindTarget::LStickDown => host.left_stick.down,
        PadBindTarget::LStickLeft => host.left_stick.left,
        PadBindTarget::LStickRight => host.left_stick.right,
        PadBindTarget::RStickUp => host.right_stick.up,
        PadBindTarget::RStickDown => host.right_stick.down,
        PadBindTarget::RStickLeft => host.right_stick.left,
        PadBindTarget::RStickRight => host.right_stick.right,
    }
}

/// A list of controls names one.
#[verifier::opaque]
pub open spec fn names(list: Seq<PadBindTarget>, target: PadBindTarget) -> bool {
    list.contains(target)
}

proof fn lemma_either_holds(a: Seq<PadBindTarget>, b: Seq<PadBindTarget>, target: PadBindTarget)
    ensures
        names(a + b, target) <==> names(a, target) || names(b, target),
{
    reveal(names);
    if a.contains(target) {
        let i = choose|i: int| 0 <= i < a.len() && a[i] == target;
        assert((a + b)[i] == target);
    }
    if b.contains(target) {
        let i = choose|i: int| 0 <= i < b.len() && b[i] == target;
        assert((a + b)[a.len() + i] == target);
    }
}

proof fn lemma_held_of(
    a: (bool, PadBindTarget),
    b: (bool, PadBindTarget),
    c: (bool, PadBindTarget),
    d: (bool, PadBindTarget),
    target: PadBindTarget,
)
    ensures
        names(held_of(a, b, c, d), target) <==> (a.0 && a.1 == target) || (b.0 && b.1 == target)
            || (c.0 && c.1 == target) || (d.0 && d.1 == target),
{
    reveal(held_of);
    let (w, x, y, z) = (if_held(a.0, a.1), if_held(b.0, b.1), if_held(c.0, c.1), if_held(d.0, d.1));
    lemma_either_holds(w, x, target);
    lemma_either_holds(w + x, y, target);
    lemma_either_holds(w + x + y, z, target);
    reveal(names);
    assert(seq![a.1][0] == a.1 && seq![b.1][0] == b.1 && seq![c.1][0] == c.1 && seq![d.1][0] == d.1);
}

proof fn lemma_six_hold(
    a: Seq<PadBindTarget>,
    b: Seq<PadBindTarget>,
    c: Seq<PadBindTarget>,
    d: Seq<PadBindTarget>,
    e: Seq<PadBindTarget>,
    f: Seq<PadBindTarget>,
    target: PadBindTarget,
)
    ensures
        names(a + b + c + d + e + f, target) <==> names(a, target) || names(b, target) || names(
            c,
            target,
        ) || names(d, target) || names(e, target) || names(f, target),
{
    lemma_either_holds(a, b, target);
    lemma_either_holds(a + b, c, target);
    lemma_either_holds(a + b + c, d, target);
    lemma_either_holds(a + b + c + d, e, target);
    lemma_either_holds(a + b + c + d + e, f, target);
}

/// The control is a button that is held.
spec fn held_button(mask: u16, bit: u16, named: PadBindTarget, target: PadBindTarget) -> bool {
    mask & bit != 0 && named == target
}

/// The control is a stick that is pushed.
spec fn held_push(push: bool, named: PadBindTarget, target: PadBindTarget) -> bool {
    push && named == target
}

proof fn lemma_held_controls(mask: u16, host: HostKeyboardInput, target: PadBindTarget)
    ensures
        names(held_controls(mask, host), target) <==> {
            ||| held_button(mask, button::UP, PadBindTarget::Up, target)
            ||| held_button(mask, button::DOWN, PadBindTarget::Down, target)
            ||| held_button(mask, button::LEFT, PadBindTarget::Left, target)
            ||| held_button(mask, button::RIGHT, PadBindTarget::Right, target)
            ||| held_button(mask, button::CROSS, PadBindTarget::Cross, target)
            ||| held_button(mask, button::CIRCLE, PadBindTarget::Circle, target)
            ||| held_button(mask, button::SQUARE, PadBindTarget::Square, target)
            ||| held_button(mask, button::TRIANGLE, PadBindTarget::Triangle, target)
            ||| held_button(mask, button::L1, PadBindTarget::L1, target)
            ||| held_button(mask, button::L2, PadBindTarget::L2, target)
            ||| held_button(mask, button::R1, PadBindTarget::R1, target)
            ||| held_button(mask, button::R2, PadBindTarget::R2, target)
            ||| held_button(mask, button::START, PadBindTarget::Start, target)
            ||| held_button(mask, button::SELECT, PadBindTarget::Select, target)
            ||| held_button(mask, button::L3, PadBindTarget::L3, target)
            ||| held_button(mask, button::R3, PadBindTarget::R3, target)
            ||| held_push(host.left_stick.up, PadBindTarget::LStickUp, target)
            ||| held_push(host.left_stick.down, PadBindTarget::LStickDown, target)
            ||| held_push(host.left_stick.left, PadBindTarget::LStickLeft, target)
            ||| held_push(host.left_stick.right, PadBindTarget::LStickRight, target)
            ||| held_push(host.right_stick.up, PadBindTarget::RStickUp, target)
            ||| held_push(host.right_stick.down, PadBindTarget::RStickDown, target)
            ||| held_push(host.right_stick.left, PadBindTarget::RStickLeft, target)
            ||| held_push(host.right_stick.right, PadBindTarget::RStickRight, target)
        },
{
    let up = (mask & button::UP != 0, PadBindTarget::Up);
    let down = (mask & button::DOWN != 0, PadBindTarget::Down);
    let left = (mask & button::LEFT != 0, PadBindTarget::Left);
    let right = (mask & button::RIGHT != 0, PadBindTarget::Right);
    lemma_held_of(up, down, left, right, target);
    let cross = (mask & button::CROSS != 0, PadBindTarget::Cross);
    let circle = (mask & button::CIRCLE != 0, PadBindTarget::Circle);
    let square = (mask & button::SQUARE != 0, PadBindTarget::Square);
    let triangle = (mask & button::TRIANGLE != 0, PadBindTarget::Triangle);
    lemma_held_of(cross, circle, square, triangle, target);
    let l1 = (mask & button::L1 != 0, PadBindTarget::L1);
    let l2 = (mask & button::L2 != 0, PadBindTarget::L2);
    let r1 = (mask & button::R1 != 0, PadBindTarget::R1);
    let r2 = (mask & button::R2 != 0, PadBindTarget::R2);
    lemma_held_of(l1, l2, r1, r2, target);
    let start = (mask & button::START != 0, PadBindTarget::Start);
    let select = (mask & button::SELECT != 0, PadBindTarget::Select);
    let l3 = (mask & button::L3 != 0, PadBindTarget::L3);
    let r3 = (mask & button::R3 != 0, PadBindTarget::R3);
    lemma_held_of(start, select, l3, r3, target);
    let left_up = (host.left_stick.up, PadBindTarget::LStickUp);
    let left_down = (host.left_stick.down, PadBindTarget::LStickDown);
    let left_left = (host.left_stick.left, PadBindTarget::LStickLeft);
    let left_right = (host.left_stick.right, PadBindTarget::LStickRight);
    lemma_held_of(left_up, left_down, left_left, left_right, target);
    let right_up = (host.right_stick.up, PadBindTarget::RStickUp);
    let right_down = (host.right_stick.down, PadBindTarget::RStickDown);
    let right_left = (host.right_stick.left, PadBindTarget::RStickLeft);
    let right_right = (host.right_stick.right, PadBindTarget::RStickRight);
    lemma_held_of(right_up, right_down, right_left, right_right, target);
    lemma_six_hold(
        held_of(up, down, left, right),
        held_of(cross, circle, square, triangle),
        held_of(l1, l2, r1, r2),
        held_of(start, select, l3, r3),
        held_of(left_up, left_down, left_left, left_right),
        held_of(right_up, right_down, right_left, right_right),
        target,
    );
}

/// The controls that are shown as held are exactly those that are.
pub proof fn law_held_controls_are_shown(mask: u16, host: HostKeyboardInput, target: PadBindTarget)
    ensures
        names(held_controls(mask, host), target) <==> is_held(target, mask, host),
{
    lemma_held_controls(mask, host, target);
}

/// The keyboard reaches the guest on its own port alone. There it pushes a stick
/// to the right and up as positive, and opposite keys push nowhere; a controller
/// keeps its own sticks.
pub proof fn law_keyboard_reaches_its_port(
    routed: RoutedPadInput,
    host: HostKeyboardInput,
    has_keyboard: bool,
)
    ensures
        ({
            let pad = guest_pad(routed, host, has_keyboard, false);
            let left = host.left_stick;
            let right = host.right_stick;
            &&& pad.left_stick.pad == routed.left_stick && pad.right_stick.pad == routed.right_stick
            &&& !has_keyboard ==> pad.mask == routed.mask && pad.left_stick.keyboard_x is None
                && pad.left_stick.keyboard_y is None && pad.right_stick.keyboard_x is None
                && pad.right_stick.keyboard_y is None
            &&& has_keyboard ==> {
                &&& pad.left_stick.keyboard_x == Some(1i8) <==> left.right && !left.left
                &&& pad.left_stick.keyboard_x == Some(-1i8) <==> left.left && !left.right
                &&& pad.left_stick.keyboard_x is None <==> left.left == left.right
                &&& pad.left_stick.keyboard_y == Some(1i8) <==> left.up && !left.down
                &&& pad.left_stick.keyboard_y == Some(-1i8) <==> left.down && !left.up
                &&& pad.left_stick.keyboard_y is None <==> left.up == left.down
                &&& pad.right_stick.keyboard_x == Some(1i8) <==> right.right && !right.left
                &&& pad.right_stick.keyboard_x == Some(-1i8) <==> right.left && !right.right
                &&& pad.right_stick.keyboard_x is None <==> right.left == right.right
                &&& pad.right_stick.keyboard_y == Some(1i8) <==> right.up && !right.down
                &&& pad.right_stick.keyboard_y == Some(-1i8) <==> right.down && !right.up
                &&& pad.right_stick.keyboard_y is None <==> right.up == right.down
            }
        }),
{
}

} // verus!
