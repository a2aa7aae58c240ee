use frontend::playtest::{EditorPlaytestStatus, EmbeddedPlaytest, EmbeddedPlaytestPhase};

#[test]
fn embedded_playtest_build_success_reaches_running() {
    let mut state = EmbeddedPlaytest::default();
    state.start_building(7u8);
    assert_eq!(state.phase(), EmbeddedPlaytestPhase::Building);
    assert_eq!(state.building_child_mut().copied(), Some(7));

    state.start_running(true);
    assert_eq!(state.phase(), EmbeddedPlaytestPhase::Running { input_captured: true });
    assert!(state.building_child_mut().is_none());
}

#[test]
fn embedded_playtest_build_failure_clears_child() {
    let mut state = EmbeddedPlaytest::default();
    state.start_building(9u8);
    state.fail();
    assert_eq!(state.phase(), EmbeddedPlaytestPhase::Failed);
    assert!(state.take_build_child().is_none());
}

#[test]
fn stop_during_build_returns_child_to_caller() {
    let mut state = EmbeddedPlaytest::default();
    state.start_building(3u8);
    assert_eq!(state.take_build_child(), Some(3));
    state.stop();
    assert_eq!(state.phase(), EmbeddedPlaytestPhase::Idle);
}

#[test]
fn capture_and_release_only_apply_while_running() {
    let mut state = EmbeddedPlaytest::<u8>::default();
    assert!(!state.capture_input());

    state.start_running(false);
    assert!(!state.input_captured());
    assert!(state.capture_input());
    assert!(state.input_captured());
    assert!(state.release_input());
    assert!(!state.input_captured());
}

#[test]
fn the_editor_sees_the_phase() {
    let mut state = EmbeddedPlaytest::<u8>::default();
    assert_eq!(state.editor_status(), EditorPlaytestStatus::Idle);
    state.start_building(1);
    assert_eq!(state.editor_status(), EditorPlaytestStatus::Building);
    assert!(!state.is_running());
    state.start_running(false);
    assert_eq!(state.editor_status(), EditorPlaytestStatus::Running { input_captured: false });
    assert!(state.is_running());
    state.fail();
    assert_eq!(state.editor_status(), EditorPlaytestStatus::Failed);
}
