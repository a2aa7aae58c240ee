use frontend::input::button;
use frontend::input::frame::{rising_edges, InputNotice, PadSample, CHORD_MASK};
use frontend::input::keyboard::{
    key_is_analog_button, key_to_pad_button, merge_axis, merge_sticks, socd_resolve,
    HostKeyboardInput, KeyboardStickState, PortBindings, StickBindings,
};
use frontend::input::keys::{
    binding_matches_key, char_to_keycode, keycode_to_binding, InputBinding, KeyCode, PhysicalKey,
};
use frontend::input::pad::{
    add_stick_dpad, native_mapping_name, poll_buttons, sample_native_pad, sample_web_pad,
    PadButtons, StickPush, WebPadReport,
};
use frontend::input::router::{configure_port, InputRouter, PortSetup, WebPad};
use frontend::input::routing::{PsxPort, RoutingTable, KEYBOARD_DEVICE_ID};

fn key(c: char) -> InputBinding {
    InputBinding::Character(c)
}

fn named(label: &str) -> InputBinding {
    InputBinding::Named(label.to_string())
}

fn arrows() -> StickBindings {
    StickBindings {
        up: named("ArrowUp"),
        down: named("ArrowDown"),
        left: named("ArrowLeft"),
        right: named("ArrowRight"),
    }
}

fn default_bindings() -> PortBindings {
    PortBindings {
        up: named("ArrowUp"),
        down: named("ArrowDown"),
        left: named("ArrowLeft"),
        right: named("ArrowRight"),
        cross: key('f'),
        circle: key('g'),
        square: key('h'),
        triangle: key('x'),
        l1: key('q'),
        r1: key('e'),
        l2: key('1'),
        r2: key('3'),
        start: named("Enter"),
        select: named("Backspace"),
        l3: key('z'),
        r3: key('r'),
        analog: named("F9"),
        left_stick: arrows(),
        right_stick: StickBindings { up: key('i'), down: key('k'), left: key('j'), right: key('l') },
    }
}

fn code(code: KeyCode) -> PhysicalKey {
    PhysicalKey::Code(code)
}

#[test]
fn rising_edges_reports_only_new_presses() {
    assert_eq!(
        rising_edges(0, button::LEFT | button::CROSS),
        button::LEFT | button::CROSS
    );
    assert_eq!(rising_edges(button::LEFT, button::LEFT), 0);
    assert_eq!(rising_edges(button::LEFT, 0), 0);
    assert_eq!(
        rising_edges(button::LEFT, button::LEFT | button::RIGHT),
        button::RIGHT
    );
}

#[test]
fn first_controller_takes_port_one_and_second_takes_port_two() {
    let mut routes = RoutingTable::default();
    routes.connect("pad-a".to_string(), "Pad A".to_string());
    assert_eq!(routes.port_for(KEYBOARD_DEVICE_ID), PsxPort::Off);
    assert_eq!(routes.port_for("pad-a"), PsxPort::One);
    assert_eq!(routes.profile_for(PsxPort::One), Some(true));

    routes.connect("pad-b".to_string(), "Pad B".to_string());
    assert_eq!(routes.port_for("pad-b"), PsxPort::Two);
}

#[test]
fn assignments_are_unique_and_disconnect_restores_keyboard() {
    let mut routes = RoutingTable::default();
    routes.connect("pad-a".to_string(), "Pad A".to_string());
    routes.connect("pad-b".to_string(), "Pad B".to_string());
    assert!(routes.set_port("pad-b", PsxPort::One));
    assert_eq!(routes.port_for("pad-a"), PsxPort::Off);
    assert_eq!(routes.port_for("pad-b"), PsxPort::One);
    routes.disconnect("pad-b");
    assert_eq!(routes.port_for(KEYBOARD_DEVICE_ID), PsxPort::One);
}

#[test]
fn analog_choice_is_part_of_the_port_profile() {
    let mut routes = RoutingTable::default();
    assert_eq!(routes.profile_for(PsxPort::One), Some(false));
    assert!(routes.set_analog(KEYBOARD_DEVICE_ID, true));
    assert_eq!(routes.profile_for(PsxPort::One), Some(true));
}

#[test]
fn controller_profiles_rebuild_both_bus_ports() {
    assert_eq!(configure_port(PsxPort::One, Some(false)), PortSetup::OriginalDigital);
    assert_eq!(configure_port(PsxPort::Two, Some(true)), PortSetup::Analog);

    assert_eq!(configure_port(PsxPort::One, None), PortSetup::Detach);
    assert_eq!(configure_port(PsxPort::Two, None), PortSetup::Detach);
    assert_eq!(configure_port(PsxPort::Off, Some(true)), PortSetup::Keep);
}

#[test]
fn keyboard_mapping_uses_default_settings() {
    let bindings = default_bindings();

    assert_eq!(key_to_pad_button(code(KeyCode::KeyF), &bindings), Some(button::CROSS));
    assert_eq!(key_to_pad_button(code(KeyCode::KeyG), &bindings), Some(button::CIRCLE));
    assert_eq!(key_to_pad_button(code(KeyCode::KeyH), &bindings), Some(button::SQUARE));
    assert_eq!(key_to_pad_button(code(KeyCode::KeyX), &bindings), Some(button::TRIANGLE));
    assert_eq!(key_to_pad_button(code(KeyCode::Backspace), &bindings), Some(button::SELECT));
    assert_eq!(key_to_pad_button(code(KeyCode::KeyR), &bindings), Some(button::R3));
    assert!(key_is_analog_button(code(KeyCode::F9), &bindings));
}

#[test]
fn keyboard_stick_mapping_uses_default_settings() {
    let bindings = default_bindings();
    let mut left = KeyboardStickState::default();
    let mut right = KeyboardStickState::default();

    assert!(left.update_key(code(KeyCode::ArrowUp), true, &bindings.left_stick));
    assert_eq!(left.vector(), (0, 1));
    assert!(left.update_key(code(KeyCode::ArrowDown), true, &bindings.left_stick));
    assert_eq!(left.vector(), (0, 0));
    assert!(left.update_key(code(KeyCode::ArrowUp), false, &bindings.left_stick));
    assert_eq!(left.vector(), (0, -1));

    assert!(right.update_key(code(KeyCode::KeyJ), true, &bindings.right_stick));
    assert_eq!(right.vector(), (-1, 0));
    assert!(right.update_key(code(KeyCode::KeyL), true, &bindings.right_stick));
    assert_eq!(right.vector(), (0, 0));
    assert!(!right.update_key(code(KeyCode::KeyX), true, &bindings.right_stick));
}

#[test]
fn socd_resolution_keeps_most_recent_direction() {
    assert_eq!(
        socd_resolve(button::LEFT | button::RIGHT, button::RIGHT, 0),
        button::RIGHT
    );
    assert_eq!(socd_resolve(button::LEFT, button::RIGHT, 0), button::LEFT);
    assert_eq!(socd_resolve(button::UP | button::DOWN, 0, 0), 0);
    assert_eq!(
        socd_resolve(
            button::UP | button::DOWN | button::LEFT | button::RIGHT | button::CROSS,
            button::LEFT,
            button::DOWN,
        ),
        button::LEFT | button::DOWN | button::CROSS
    );
}

fn press(host: &mut HostKeyboardInput, at: KeyCode, bindings: &PortBindings) {
    host.apply_key_event(code(at), true, bindings);
}

fn release(host: &mut HostKeyboardInput, at: KeyCode, bindings: &PortBindings) {
    host.apply_key_event(code(at), false, bindings);
}

#[test]
fn capture_swallowed_release_cannot_wedge_pad_state() {
    let bindings = default_bindings();
    let mut host = HostKeyboardInput::default();

    press(&mut host, KeyCode::KeyF, &bindings);
    assert_eq!(host.resolved_mask(0), button::CROSS);

    host.clear();
    assert_eq!(host, HostKeyboardInput::default());
    assert_eq!(host.resolved_mask(0), 0);

    release(&mut host, KeyCode::KeyF, &bindings);
    assert_eq!(host.resolved_mask(0), 0);

    press(&mut host, KeyCode::ArrowLeft, &bindings);
    assert_ne!(host.socd_last_horiz, 0);
    host.clear();
    assert_eq!(host.socd_last_horiz, 0);
    assert_eq!(host.resolved_mask(0), 0);
}

#[test]
fn reset_controls_invalidates_bits_from_the_old_bindings() {
    let custom = PortBindings { circle: key('j'), ..default_bindings() };
    let mut host = HostKeyboardInput::default();

    press(&mut host, KeyCode::KeyJ, &custom);
    assert_eq!(host.resolved_mask(0), button::CIRCLE);

    let defaults = default_bindings();
    host.clear();
    let gamepad_mask = button::L1;
    assert_eq!(host.resolved_mask(gamepad_mask), button::L1);

    release(&mut host, KeyCode::KeyJ, &defaults);
    assert_eq!(host.resolved_mask(gamepad_mask), button::L1);
}

#[test]
fn socd_recency_lets_the_newer_device_win() {
    let bindings = default_bindings();

    let mut host = HostKeyboardInput::default();
    press(&mut host, KeyCode::ArrowLeft, &bindings);
    host.note_gamepad_edges(button::RIGHT);
    assert_eq!(
        host.resolved_mask(button::RIGHT) & (button::LEFT | button::RIGHT),
        button::RIGHT
    );

    let mut host = HostKeyboardInput::default();
    host.note_gamepad_edges(button::LEFT);
    press(&mut host, KeyCode::ArrowRight, &bindings);
    assert_eq!(
        host.resolved_mask(button::LEFT) & (button::LEFT | button::RIGHT),
        button::RIGHT
    );

    release(&mut host, KeyCode::ArrowRight, &bindings);
    assert_eq!(
        host.resolved_mask(button::LEFT) & (button::LEFT | button::RIGHT),
        button::LEFT
    );

    let mut host = HostKeyboardInput::default();
    press(&mut host, KeyCode::ArrowLeft, &bindings);
    host.note_gamepad_edges(button::LEFT | button::RIGHT);
    assert_eq!(
        host.resolved_mask(button::LEFT | button::RIGHT) & (button::LEFT | button::RIGHT),
        0
    );

    let mut host = HostKeyboardInput::default();
    press(&mut host, KeyCode::ArrowUp, &bindings);
    host.note_gamepad_edges(button::DOWN);
    assert_eq!(
        host.resolved_mask(button::DOWN) & (button::UP | button::DOWN),
        button::DOWN
    );
}

#[test]
fn captured_keys_round_trip_through_binding_match() {
    for at in [
        KeyCode::KeyA,
        KeyCode::KeyZ,
        KeyCode::Digit0,
        KeyCode::Digit9,
        KeyCode::ArrowLeft,
        KeyCode::Enter,
        KeyCode::Space,
        KeyCode::ShiftLeft,
        KeyCode::F1,
        KeyCode::F11,
        KeyCode::Numpad0,
        KeyCode::Numpad9,
        KeyCode::NumpadAdd,
        KeyCode::NumpadEnter,
        KeyCode::Semicolon,
        KeyCode::Comma,
        KeyCode::ControlLeft,
        KeyCode::AltRight,
    ] {
        let binding = keycode_to_binding(at).unwrap_or_else(|| panic!("{at:?} should be bindable"));
        assert!(
            binding_matches_key(&binding, code(at)),
            "{at:?} captured as {binding:?} but does not match back"
        );
    }
    for at in [KeyCode::Escape, KeyCode::F5, KeyCode::F7, KeyCode::F8, KeyCode::F12] {
        assert_eq!(keycode_to_binding(at), None);
    }
    assert_eq!(
        keycode_to_binding(KeyCode::KeyG),
        Some(InputBinding::Character('g'))
    );
}

#[test]
fn a_captured_label_names_one_key_but_for_the_shifts() {
    let labelled = [
        KeyCode::ArrowUp,
        KeyCode::ArrowDown,
        KeyCode::Numpad1,
        KeyCode::F1,
        KeyCode::F11,
        KeyCode::BracketLeft,
        KeyCode::BracketRight,
        KeyCode::Backslash,
        KeyCode::IntlBackslash,
        KeyCode::ShiftLeft,
    ];
    for own in labelled {
        let binding = keycode_to_binding(own).expect("a label");
        for other in labelled {
            assert_eq!(binding_matches_key(&binding, code(other)), own == other);
        }
    }
    let shift = keycode_to_binding(KeyCode::ShiftLeft).expect("a label");
    assert!(binding_matches_key(&shift, code(KeyCode::ShiftRight)));
}

#[test]
fn a_direction_without_its_opposite_is_seen_as_held() {
    let bindings = default_bindings();
    let mut host = HostKeyboardInput::default();
    press(&mut host, KeyCode::ArrowLeft, &bindings);
    assert_eq!(host.resolved_mask(button::UP), button::LEFT | button::UP);
    assert_eq!(
        host.resolved_mask(button::UP | button::RIGHT) & (button::UP | button::DOWN),
        button::UP
    );
}

#[test]
fn keyboard_mapping_honors_rebound_button() {
    let bindings = PortBindings { cross: key('j'), ..default_bindings() };

    assert_eq!(key_to_pad_button(code(KeyCode::KeyJ), &bindings), Some(button::CROSS));
    assert_eq!(key_to_pad_button(code(KeyCode::KeyF), &bindings), None);
}

#[test]
fn keyboard_stick_mapping_honors_rebound_direction() {
    let defaults = default_bindings();
    let bindings = PortBindings {
        right_stick: StickBindings { left: key('u'), ..defaults.right_stick },
        ..default_bindings()
    };
    let mut right = KeyboardStickState::default();

    assert!(right.update_key(code(KeyCode::KeyU), true, &bindings.right_stick));
    assert_eq!(right.vector(), (-1, 0));
    assert!(!right.update_key(code(KeyCode::KeyJ), true, &bindings.right_stick));
}

fn merged(gamepad: (f32, f32), keyboard: (i8, i8)) -> (f32, f32) {
    let (x, y) = merge_sticks(keyboard);
    (x.map_or(gamepad.0, f32::from), y.map_or(gamepad.1, f32::from))
}

#[test]
fn keyboard_stick_axes_override_matching_gamepad_axes() {
    assert_eq!(merged((0.25, -0.5), (0, 1)), (0.25, 1.0));
    assert_eq!(merged((0.25, -0.5), (-1, 0)), (-1.0, -0.5));
}

#[test]
fn a_resting_keyboard_axis_leaves_the_pad_alone() {
    assert_eq!(merge_axis(0), None);
    assert_eq!(merge_axis(-1), Some(-1));
    assert_eq!(merge_axis(1), Some(1));
}

#[test]
fn bindings_ignore_capitals_and_unbound_matches_nothing() {
    assert!(binding_matches_key(&key('F'), code(KeyCode::KeyF)));
    assert!(binding_matches_key(&named("arrowup"), code(KeyCode::ArrowUp)));
    assert!(!binding_matches_key(&InputBinding::Unbound, code(KeyCode::KeyF)));
    assert!(!binding_matches_key(&named("Nowhere"), code(KeyCode::KeyF)));
    assert!(!binding_matches_key(&key('f'), PhysicalKey::Unidentified));
    assert_eq!(char_to_keycode('7'), Some(KeyCode::Digit7));
    assert_eq!(char_to_keycode('?'), None);
}

fn no_buttons() -> PadButtons {
    PadButtons {
        south: false,
        east: false,
        west: false,
        north: false,
        left_trigger: false,
        right_trigger: false,
        left_trigger2: false,
        right_trigger2: false,
        left_thumb: false,
        right_thumb: false,
        dpad_up: false,
        dpad_down: false,
        dpad_left: false,
        dpad_right: false,
        select: false,
        start: false,
        stick: no_push(),
    }
}

fn no_push() -> StickPush {
    StickPush { up: false, down: false, left: false, right: false }
}

#[test]
fn pad_buttons_become_the_console_mask() {
    assert_eq!(poll_buttons(None), 0);
    assert_eq!(poll_buttons(Some(no_buttons())), 0);
    let held = PadButtons {
        south: true,
        left_trigger2: true,
        dpad_left: true,
        start: true,
        ..no_buttons()
    };
    let mask = button::CROSS | button::L2 | button::LEFT | button::START;
    assert_eq!(poll_buttons(Some(held)), mask);
    assert_eq!(sample_native_pad(held), mask);
    assert_eq!(
        sample_native_pad(PadButtons { east: true, west: true, north: true, ..no_buttons() }),
        button::CIRCLE | button::SQUARE | button::TRIANGLE
    );
}

#[test]
fn the_left_stick_doubles_as_directions() {
    let mut mask = button::CROSS;
    add_stick_dpad(&mut mask, StickPush { up: true, right: true, ..no_push() });
    assert_eq!(mask, button::CROSS | button::UP | button::RIGHT);
}

#[test]
fn web_pads_follow_the_standard_layout() {
    let mut pressed = vec![false; 17];
    pressed[0] = true;
    pressed[9] = true;
    pressed[16] = true;
    let report = WebPadReport { pressed, stick: no_push() };
    assert_eq!(sample_web_pad(&report), (button::CROSS | button::START, true));
    let short = WebPadReport { pressed: vec![], stick: no_push() };
    assert_eq!(sample_web_pad(&short), (0, false));
}

#[test]
fn mapping_names_tell_known_pads_apart() {
    assert_ne!(native_mapping_name(true), native_mapping_name(false));
}

fn sample(key: u32, mask: u16) -> PadSample {
    PadSample { key, mask, left_moved: false, right_moved: false, mode_down: false }
}

fn router_with_pads(count: u32) -> InputRouter {
    let mut router = InputRouter::new();
    for key in 0..count {
        router.pad_connected(
            key,
            format!("pad-{key}"),
            format!("Pad {key}"),
            "mapped".to_string(),
        );
    }
    router
}

#[test]
fn a_held_button_is_reported_as_pressed_once() {
    let mut router = router_with_pads(1);
    let first = router.poll(&vec![sample(0, button::CROSS)]);
    assert_eq!(first.pad1_mask, button::CROSS);
    assert_eq!(first.pressed_mask, button::CROSS);
    assert!(first.menu_confirm);
    let second = router.poll(&vec![sample(0, button::CROSS)]);
    assert_eq!(second.pad1_mask, button::CROSS);
    assert_eq!(second.pressed_mask, 0);
    assert!(!second.menu_confirm);
}

#[test]
fn the_menu_chord_is_kept_from_the_guest() {
    let mut router = router_with_pads(1);
    let frame = router.poll(&vec![sample(0, CHORD_MASK)]);
    assert!(frame.toggle_menu);
    assert_eq!(frame.port1.mask & CHORD_MASK, 0);
    let held = router.poll(&vec![sample(0, CHORD_MASK)]);
    assert!(!held.toggle_menu);
}

#[test]
fn notices_tell_of_connections_once() {
    let mut router = router_with_pads(1);
    assert!(router.is_connected());
    assert_eq!(router.connected_names(), "Pad 0");
    let frame = router.poll(&vec![]);
    assert_eq!(frame.notices.len(), 1);
    assert!(matches!(frame.notices[0], InputNotice::Connected { .. }));
    assert!(frame.notices[0].message().contains("Pad 0"));
    assert_eq!(router.poll(&vec![]).notices.len(), 0);
    router.pad_disconnected(0);
    let frame = router.poll(&vec![]);
    assert!(matches!(frame.notices[0], InputNotice::Disconnected { .. }));
    assert!(!router.is_connected());
    assert_eq!(router.keyboard_port(), PsxPort::One);
}

#[test]
fn two_pads_drive_two_ports() {
    let mut router = router_with_pads(2);
    let frame = router.poll(&vec![sample(0, button::CROSS), sample(1, button::CIRCLE)]);
    assert_eq!(frame.port1.mask, button::CROSS);
    assert_eq!(frame.port2.mask, button::CIRCLE);
    assert_eq!(router.devices().len(), 3);
    assert!(router.set_device_port("pad-1", PsxPort::Off));
    let frame = router.poll(&vec![sample(0, button::CROSS), sample(1, button::CIRCLE)]);
    assert_eq!(frame.port2.mask, 0);
    assert_eq!(router.apply_layout(), (PortSetup::Analog, PortSetup::Detach));
}

#[test]
fn changes_of_the_layout_are_counted() {
    let mut router = InputRouter::new();
    let before = router.routing_generation();
    assert!(router.toggle_keyboard_analog());
    assert_ne!(router.routing_generation(), before);
    assert!(!router.set_device_analog("nobody", true));
}

#[test]
fn web_pads_come_and_go_with_the_browsers_list() {
    let mut router = InputRouter::new();
    router.sync_web(&vec![WebPad { index: 4, name: "Web".to_string() }]);
    assert_eq!(router.connected_names(), "Web");
    router.sync_web(&vec![]);
    assert!(!router.is_connected());
}
