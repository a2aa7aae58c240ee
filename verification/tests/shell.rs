use frontend::input::button;
use frontend::input::frame::{InputFrame, InputNotice, PadSample};
use frontend::input::keyboard::{HostKeyboardInput, PortBindings, StickBindings};
use frontend::input::keys::{InputBinding, KeyCode, PhysicalKey};
use frontend::input::router::InputRouter;
use frontend::input::routing::PsxPort;
use frontend::shell::chord::{freelook_step, FreelookChord, FreelookChordAction};
use frontend::shell::display::{
    capture_to_arm, cpu_display_rect, display_area_or_default, frontend_display, gpu_log_counters,
    gpu_log_has_draw, hw_display_rect, hw_target_needs_resync, picture_work, take_vram_stamp,
    CaptureArm, DisplayArea, DisplaySource, GpuLogEntry, HwRender, PictureState, PixelRect,
    VramStamp,
};
use frontend::shell::events::{
    controller_mode_text, merge_key, merge_pads, notices_status, on_key, press_menu_button,
    route_keyboard_to_game, shell_step, HostCommand, KeyOutcome, KeyPress, KeyState, LogicalKey,
    MenuButtonAction, MenuButtonState, MenuInput, ShellEvent, ShellStep,
};
use frontend::shell::frame::{
    frame_counts, guest_ports, held_targets, layout_is_due, pad_is_active, LayoutStamp,
    PadBindTarget,
};
use frontend::shell::metrics::{
    chunk_mask, editor_play_metrics, find_latest_with, profile_counter_i32_biased, MapCounter,
    MapQuery, MaskHalves, PoseCounters, ProfileHistory, ProfileSample, RecentCounters,
    RecordedSample, RoomMask, RoomMasks,
};
use frontend::shell::schedule::{schedule_next_redraw, RedrawPlan, RedrawState};
use frontend::textures::vram::{VRAM_HEIGHT, VRAM_WIDTH};

#[test]
fn hw_resync_tracks_cpu_vram_generation_changes() {
    let mut seen = 0;
    let mut last_24bpp = false;

    assert!(!hw_target_needs_resync(&mut seen, &mut last_24bpp, 0, false));
    assert!(hw_target_needs_resync(&mut seen, &mut last_24bpp, 1, false));
    assert!(!hw_target_needs_resync(&mut seen, &mut last_24bpp, 1, false));
}

#[test]
fn hw_resync_when_leaving_24bpp_scanout() {
    let mut seen = 7;
    let mut last_24bpp = false;

    assert!(!hw_target_needs_resync(&mut seen, &mut last_24bpp, 7, true));
    assert!(hw_target_needs_resync(&mut seen, &mut last_24bpp, 7, false));
}

#[test]
fn display_uv_honors_256_wide_modes() {
    let area = DisplayArea { x: 0, y: 0, width: 256, height: 240, bpp24: false };

    let hw = hw_display_rect(area);
    assert_eq!((hw.min_x, hw.min_y), (0, 0));
    assert_eq!(hw.max_x as f32 / VRAM_WIDTH as f32, 256.0 / VRAM_WIDTH as f32);
    assert_eq!(hw.max_y as f32 / VRAM_HEIGHT as f32, 240.0 / VRAM_HEIGHT as f32);

    let cpu = cpu_display_rect(area);
    assert_eq!((cpu.min_x, cpu.min_y), (0, 0));
    assert_eq!(cpu.max_x, 256);
    assert_eq!(cpu.max_y, 240);
}

#[test]
fn tap_toggles_on_release() {
    let mut c = FreelookChord::default();
    assert_eq!(c.update(true, false), None, "press alone does nothing");
    assert_eq!(c.update(true, false), None, "still held, still nothing");
    assert_eq!(c.update(false, false), Some(FreelookChordAction::Toggle));
}

#[test]
fn a_second_tap_toggles_without_resetting() {
    let mut c = FreelookChord::default();
    for _ in 0..2 {
        assert_eq!(c.update(true, false), None);
        assert_eq!(c.update(false, false), Some(FreelookChordAction::Toggle));
    }
}

#[test]
fn hold_resets_once_and_release_does_not_toggle() {
    let mut c = FreelookChord::default();
    assert_eq!(c.update(true, false), None);
    assert_eq!(c.update(true, true), Some(FreelookChordAction::Reset));
    assert_eq!(c.update(true, true), None, "reset must not repeat");
    assert_eq!(c.update(true, true), None);
    assert_eq!(
        c.update(false, true),
        None,
        "releasing after a hold must not be read as a tap"
    );
}

#[test]
fn a_tap_after_a_hold_still_toggles() {
    let mut c = FreelookChord::default();
    c.update(true, false);
    assert_eq!(c.update(true, true), Some(FreelookChordAction::Reset));
    c.update(false, true);
    assert_eq!(c.update(true, false), None);
    assert_eq!(c.update(false, false), Some(FreelookChordAction::Toggle));
}

#[test]
fn a_reset_comes_in_the_first_late_frame() {
    let mut c = FreelookChord::default();
    let actions: Vec<_> =
        [true, false, true, true].into_iter().map(|late| c.update(true, late)).collect();
    assert_eq!(actions, vec![None, None, Some(FreelookChordAction::Reset), None]);
    assert_eq!(c.update(false, true), None);
}

#[test]
fn idle_chord_is_silent() {
    let mut c = FreelookChord::default();
    for _ in 0..4 {
        assert_eq!(c.update(false, false), None);
    }
}

#[test]
fn the_free_camera_follows_its_chord() {
    let mut chord = FreelookChord::default();
    let both = button::L3 | button::R3;
    let first = freelook_step(&mut chord, false, both, None);
    assert!(first.started);
    assert!(!first.enabled);
    let second = freelook_step(&mut chord, false, 0, Some(50));
    assert!(second.enabled);
    assert!(second.released);
    assert!(second.message.is_some());
}

#[test]
fn a_missing_machine_shows_the_default_area() {
    let area = display_area_or_default(None);
    assert_eq!((area.width, area.height), (320, 240));
    assert!(!area.bpp24);
    let (source, rect) = frontend_display(Some(DisplayArea {
        x: 0,
        y: 0,
        width: 640,
        height: 480,
        bpp24: true,
    }));
    assert_eq!(source, DisplaySource::Cpu);
    assert_eq!(rect, PixelRect { min_x: 0, min_y: 0, max_x: 640, max_y: 480 });
    assert_eq!(frontend_display(None).0, DisplaySource::Hw);
}

#[test]
fn the_command_log_is_counted_by_kind() {
    let log = vec![
        GpuLogEntry { opcode: 0x20, words: 4 },
        GpuLogEntry { opcode: 0xA0, words: 3 },
        GpuLogEntry { opcode: 0xE1, words: 1 },
    ];
    let (commands, words, draws, images) = gpu_log_counters(&log);
    assert_eq!((commands, words), (3, 8));
    assert_eq!(draws, 1);
    assert_eq!(images, 1);
    assert!(gpu_log_has_draw(&log, 0));
    assert!(!gpu_log_has_draw(&log, 2));
}

#[test]
fn video_memory_is_copied_only_when_it_changed() {
    let stamp = VramStamp { cycles: 1, generation: 1, wireframe: false };
    let mut synced = None;
    assert!(take_vram_stamp(&mut synced, Some(stamp)));
    assert!(!take_vram_stamp(&mut synced, Some(stamp)));
    assert!(take_vram_stamp(&mut synced, Some(VramStamp { wireframe: true, ..stamp })));
}

#[test]
fn a_picture_is_drawn_where_something_changed() {
    let idle = PictureState {
        has_machine: true,
        has_mirror: false,
        vram_dirty: false,
        scale_changed: false,
        resync: false,
        side_panel: false,
        in_editor: false,
        playtest_running: false,
        preview_visible: false,
    };
    assert_eq!(picture_work(idle).hw, HwRender::Keep);
    let work = picture_work(PictureState { vram_dirty: true, ..idle });
    assert_eq!(work.hw, HwRender::Frame { refill: false });
    let refilled = picture_work(PictureState { vram_dirty: true, resync: true, ..idle });
    assert_eq!(refilled.hw, HwRender::Frame { refill: true });
    assert_eq!(capture_to_arm(true, false, false), CaptureArm::PixelTracer);
    assert_eq!(capture_to_arm(false, false, false), CaptureArm::CommandLog);
    assert_eq!(capture_to_arm(true, true, false), CaptureArm::Nothing);
}

fn stick() -> StickBindings {
    StickBindings {
        up: InputBinding::Unbound,
        down: InputBinding::Unbound,
        left: InputBinding::Unbound,
        right: InputBinding::Unbound,
    }
}

fn bindings() -> PortBindings {
    PortBindings {
        up: InputBinding::Named("ArrowUp".to_string()),
        down: InputBinding::Named("ArrowDown".to_string()),
        left: InputBinding::Named("ArrowLeft".to_string()),
        right: InputBinding::Named("ArrowRight".to_string()),
        cross: InputBinding::Character('f'),
        circle: InputBinding::Unbound,
        square: InputBinding::Unbound,
        triangle: InputBinding::Unbound,
        l1: InputBinding::Unbound,
        r1: InputBinding::Unbound,
        l2: InputBinding::Unbound,
        r2: InputBinding::Unbound,
        start: InputBinding::Unbound,
        select: InputBinding::Unbound,
        l3: InputBinding::Unbound,
        r3: InputBinding::Unbound,
        analog: InputBinding::Named("F9".to_string()),
        left_stick: stick(),
        right_stick: stick(),
    }
}

fn pressed(logical: LogicalKey, code: KeyCode) -> KeyPress {
    KeyPress { logical, physical: PhysicalKey::Code(code), pressed: true, repeat: false }
}

fn key_state() -> KeyState {
    KeyState {
        host: HostKeyboardInput::default(),
        pending: MenuInput::default(),
        display_gpu_compute: false,
    }
}

#[test]
fn a_captured_key_is_bound_and_escape_cancels() {
    let mut state = key_state();
    let mut router = InputRouter::new();
    let keys = bindings();
    let press = pressed(LogicalKey::Other, KeyCode::KeyQ);
    let outcome = on_key(&mut state, &mut router, &keys, press, true, true);
    assert!(matches!(outcome, KeyOutcome::Bound(InputBinding::Character('q'))));
    assert_eq!(state.host, HostKeyboardInput::default());
    let press = pressed(LogicalKey::Escape, KeyCode::Escape);
    let outcome = on_key(&mut state, &mut router, &keys, press, true, true);
    assert!(matches!(outcome, KeyOutcome::Cancelled));
    let press = pressed(LogicalKey::F5, KeyCode::F5);
    let outcome = on_key(&mut state, &mut router, &keys, press, true, true);
    assert!(matches!(outcome, KeyOutcome::Refused));
    let press = KeyPress { pressed: false, ..pressed(LogicalKey::Other, KeyCode::KeyQ) };
    let outcome = on_key(&mut state, &mut router, &keys, press, true, true);
    assert!(matches!(outcome, KeyOutcome::Waiting));
}

#[test]
fn keys_reach_the_game_and_the_host() {
    let mut state = key_state();
    let mut router = InputRouter::new();
    let keys = bindings();
    let press = pressed(LogicalKey::Other, KeyCode::KeyF);
    on_key(&mut state, &mut router, &keys, press, false, true);
    assert_eq!(state.host.resolved_mask(0), button::CROSS);
    let press = pressed(LogicalKey::F5, KeyCode::F5);
    let outcome = on_key(&mut state, &mut router, &keys, press, false, true);
    assert!(matches!(outcome, KeyOutcome::Taken { command: HostCommand::SaveState, .. }));
    let press = pressed(LogicalKey::Other, KeyCode::F9);
    let outcome = on_key(&mut state, &mut router, &keys, press, false, true);
    assert!(matches!(outcome, KeyOutcome::Taken { analog: Some(true), .. }));
    assert_ne!(controller_mode_text(true), controller_mode_text(false));
    let press = pressed(LogicalKey::ArrowUp, KeyCode::ArrowUp);
    on_key(&mut state, &mut router, &keys, press, false, true);
    assert!(state.pending.up);
}

#[test]
fn menus_take_keys_and_pads() {
    let merged = merge_key(MenuInput::default(), LogicalKey::Enter);
    assert!(merged.confirm);
    let mut router = InputRouter::new();
    router.pad_connected(1, "a".to_string(), "Pad".to_string(), "mapped".to_string());
    let frame = router.poll(&vec![PadSample {
        key: 1,
        mask: button::DOWN,
        left_moved: false,
        right_moved: false,
        mode_down: false,
    }]);
    let merged = merge_pads(merged, &frame);
    assert!(merged.confirm && merged.down);
    assert!(!merged.up);
}

#[test]
fn notices_share_one_status_line() {
    assert_eq!(notices_status(&vec![]), None);
    let notices = vec![
        InputNotice::Disconnected { name: "A".to_string() },
        InputNotice::Disconnected { name: "B".to_string() },
    ];
    let expected = format!("{} \u{b7} {}", notices[0].message(), notices[1].message());
    assert_eq!(notices_status(&notices), Some(expected));
}

fn menu_state() -> MenuButtonState {
    MenuButtonState {
        controls_panel_open: false,
        in_editor: false,
        playtest_running: false,
        input_captured: false,
        running: true,
        menu_open: false,
        has_machine: true,
        has_game: true,
    }
}

#[test]
fn the_menu_button_pauses_and_resumes() {
    let mut state = menu_state();
    let mut input = MenuInput { toggle_open: true, ..MenuInput::default() };
    assert_eq!(press_menu_button(&mut input, &mut state), Some(MenuButtonAction::Pause));
    assert!(!state.running);
    let mut input = MenuInput { toggle_open: true, ..MenuInput::default() };
    assert_eq!(press_menu_button(&mut input, &mut state), Some(MenuButtonAction::Resume));
    assert!(state.running);
    let mut input = MenuInput::default();
    assert_eq!(press_menu_button(&mut input, &mut state), None);
}

#[test]
fn window_events_lead_to_steps() {
    assert_eq!(shell_step(ShellEvent::CloseRequested), ShellStep::Quit);
    assert_eq!(shell_step(ShellEvent::Resized), ShellStep::Resize);
    assert_eq!(shell_step(ShellEvent::FocusLost), ShellStep::ReleaseKeys);
    assert_eq!(shell_step(ShellEvent::RedrawRequested), ShellStep::Draw);
    assert!(route_keyboard_to_game(false, false));
    assert!(!route_keyboard_to_game(true, false));
    assert!(route_keyboard_to_game(true, true));
}

#[test]
fn held_controls_are_listed() {
    let host = HostKeyboardInput::default();
    assert_eq!(
        held_targets(button::CROSS | button::UP, &host),
        vec![PadBindTarget::Up, PadBindTarget::Cross]
    );
    assert!(pad_is_active(0, true, false, false));
    assert!(!pad_is_active(0, false, false, false));
}

fn empty_frame() -> InputFrame {
    InputFrame::new(vec![])
}

#[test]
fn the_keyboard_plays_on_its_port_only() {
    let mut host = HostKeyboardInput::default();
    host.apply_key_event(PhysicalKey::Code(KeyCode::KeyF), true, &bindings());
    let (one, two) = guest_ports(&empty_frame(), &host, PsxPort::Two, false);
    assert_eq!((one.mask, two.mask), (0, button::CROSS));
    let (one, two) = guest_ports(&empty_frame(), &host, PsxPort::One, false);
    assert_eq!((one.mask, two.mask), (button::CROSS, 0));
    let (one, two) = guest_ports(&empty_frame(), &host, PsxPort::One, true);
    assert_eq!((one.mask, two.mask), (0, 0));
}

#[test]
fn layouts_are_applied_once() {
    let mut applied = None;
    let stamp = LayoutStamp { machine: 1, routes: 1 };
    assert!(layout_is_due(&mut applied, stamp));
    assert!(!layout_is_due(&mut applied, stamp));
    assert!(layout_is_due(&mut applied, LayoutStamp { machine: 2, routes: 1 }));
}

#[test]
fn frames_are_counted() {
    let counts = frame_counts(1, true, false, 10, 14);
    assert!(counts.draw_vblank);
    assert!(!counts.step_cap_miss);
    assert_eq!(counts.polls, 4);
    assert!(!frame_counts(1, false, false, 0, 0).draw_vblank);
}

#[test]
fn biased_counters_are_signed_again() {
    assert_eq!(profile_counter_i32_biased(1_000_000, 1_000_000), 0);
    assert_eq!(profile_counter_i32_biased(0, 4096), -4096);
    assert_eq!(profile_counter_i32_biased(u32::MAX, 0), i32::MAX);
    assert_eq!(chunk_mask(MaskHalves { lo: 1, hi: 2 }), 0x2_0000_0001);
}

#[test]
fn a_hidden_window_waits() {
    let state = RedrawState {
        now: 1_000,
        last_frame: 1_000,
        running: false,
        owed: 0,
        menu_open: false,
        in_editor: false,
        pad_active: false,
        active_tick: 10,
        idle_tick: 100,
        repaint_delay: None,
    };
    assert_eq!(schedule_next_redraw(false, state), RedrawPlan::Wait);
    assert_eq!(schedule_next_redraw(true, state), RedrawPlan::WaitUntil { time: 1_100 });
    let owing = RedrawState { running: true, owed: 1, ..state };
    assert_eq!(schedule_next_redraw(true, owing), RedrawPlan::WaitUntil { time: 1_001 });
    let due = RedrawState { running: true, owed: 0, ..state };
    assert!(matches!(schedule_next_redraw(true, due), RedrawPlan::Request { .. }));
}

fn sample(serial: u64, count: u32) -> ProfileSample {
    let mask = MaskHalves { lo: count, hi: 1 };
    ProfileSample {
        serial,
        recent: RecentCounters {
            chunk_visible: count,
            chunk_loaded: count,
            chunk_candidates: count,
            chunk_built: count,
            chunk_cache_skips: count,
            portal_visible_rooms: count,
            portal_frontier_rooms: count,
            portal_missing_resident: count,
            portal_build_failed: count,
            portal_tests: count,
            portal_accepts: count,
            portal_bounds_fallbacks: count,
            stream_requests: count,
            stream_misses: count,
            stream_prefetches: count,
            stream_evictions: count,
            stream_slot_limit: count,
            stream_pending: count,
            stream_failed: count,
            stream_protected_full: count,
            vram_texture_drops: count,
            room_material_slot_overflow: count,
            room_visibility_fallback_draws: count,
            portal_reject_backface: count,
            portal_reject_frustum: count,
            portal_reject_tiny: count,
            portal_cap_room: count,
            portal_cap_frustum: count,
            portal_cap_depth: count,
            stream_priority_current: count,
            stream_priority_visible: count,
            stream_priority_frontier: count,
            vram_slot_table_full: count,
            vram_window_full: count,
            vram_clut_full: count,
            vram_upload_queue_full: count,
        },
        masks: RoomMasks {
            loaded: mask,
            loading: mask,
            active: mask,
            drawn: mask,
            portal_visible: mask,
            portal_frontier: mask,
            portal_missing: mask,
            portal_build_failed: mask,
            portal_tested: mask,
            portal_accepted: mask,
            portal_reject_frustum: mask,
            portal_bounds_fallback: mask,
            portal_tested_portal: mask,
            portal_accepted_portal: mask,
            portal_reject_frustum_portal: mask,
            portal_bounds_fallback_portal: mask,
        },
        pose: PoseCounters {
            player_room_index: count,
            portal_current_room_index: count,
            player_local_x: count,
            player_local_z: count,
            player_view_yaw: count,
            camera_local_x: count,
            camera_local_y: count,
            camera_local_z: count,
            camera_global_x: count,
            camera_global_y: count,
            camera_global_z: count,
            camera_sin_yaw: count,
            camera_cos_yaw: count,
            camera_sin_pitch: count,
            camera_cos_pitch: count,
        },
    }
}

fn recorded(serial: u64, count: u32, present: Vec<MapCounter>) -> RecordedSample {
    RecordedSample { sample: sample(serial, count), present }
}

fn no_history() -> ProfileHistory {
    ProfileHistory { samples: vec![], live_average: None, average: None }
}

fn pose() -> Vec<MapCounter> {
    vec![
        MapCounter::CameraGlobalX,
        MapCounter::CameraGlobalZ,
        MapCounter::PlayerLocalX,
        MapCounter::PlayerLocalZ,
    ]
}

#[test]
fn metrics_wait_for_the_first_sample() {
    assert_eq!(editor_play_metrics(&no_history()), None);
}

#[test]
fn metrics_take_each_counter_from_the_sample_that_has_it() {
    let history = ProfileHistory {
        samples: vec![
            recorded(3, 70_000, pose()),
            recorded(4, 4, vec![MapCounter::MaskHi(RoomMask::Drawn)]),
            recorded(5, 5, vec![MapCounter::MaskLo(RoomMask::Loaded)]),
            recorded(7, 1, vec![]),
        ],
        live_average: Some(sample(6, 2)),
        average: Some(sample(5, 3)),
    };
    let metrics = editor_play_metrics(&history).expect("metrics");
    assert_eq!(metrics.sample_serial, 7);
    assert_eq!(metrics.chunk_visible, 2);
    assert_eq!(metrics.portal_rejects, [2, 2, 2]);
    assert_eq!(metrics.chunk_drawn_mask, (1 << 32) | 4);
    assert!(metrics.player_map_valid && metrics.camera_view_basis_valid);
    assert_eq!(metrics.player_local_x, 70_000 - 1_000_000);
    assert_eq!(metrics.player_view_yaw_q12, 0xFFFF);
    assert_eq!(metrics.camera_view_sin_yaw_q12, 4096);
}

#[test]
fn metrics_fall_back_to_the_latest_sample() {
    let history = ProfileHistory { samples: vec![recorded(7, 9, vec![])], ..no_history() };
    let metrics = editor_play_metrics(&history).expect("metrics");
    assert_eq!(metrics.chunk_visible, 9);
    assert_eq!(metrics.chunk_loaded_mask, (1 << 32) | 9);
    assert_eq!(metrics.player_room_index, 9);
    assert!(!metrics.player_map_valid && !metrics.camera_map_valid);
}

#[test]
fn samples_are_found_by_the_counters_that_were_sent() {
    let loaded = vec![MapCounter::MaskLo(RoomMask::Loaded), MapCounter::MaskHi(RoomMask::Loaded)];
    let mut part = pose();
    part.pop();
    let samples = vec![
        recorded(1, 0, pose()),
        recorded(2, 0, part),
        recorded(3, 0, loaded),
        recorded(4, 0, vec![]),
    ];
    let serial = |query| find_latest_with(&samples, query).map(|sample| sample.serial);
    assert_eq!(serial(MapQuery::Pose), Some(1), "a position needs all of its counters");
    assert_eq!(serial(MapQuery::RenderMap), Some(2), "loaded rooms are not drawn ones");
    assert_eq!(serial(MapQuery::ChunkMap), Some(3));
    assert_eq!(find_latest_with(&vec![], MapQuery::ChunkMap), None);
}
