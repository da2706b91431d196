use flock_lab::{is_handled, route_input, ControlKey, InputOutcome, UiAction, UiState, Viewport};

#[test]
fn keys_route_to_simulation_controls() {
    assert_eq!(route_input(false, false, Some(ControlKey::Space)), InputOutcome::TogglePause);
    assert_eq!(route_input(false, false, Some(ControlKey::KeyR)), InputOutcome::Reset);
    assert_eq!(route_input(false, false, Some(ControlKey::Enter)), InputOutcome::Randomize);
    assert_eq!(route_input(false, false, Some(ControlKey::Other)), InputOutcome::Ignored);
    assert_eq!(route_input(false, false, None), InputOutcome::Ignored);
}

#[test]
fn panel_and_camera_take_events_first() {
    assert_eq!(route_input(true, false, Some(ControlKey::Space)), InputOutcome::Consumed);
    assert_eq!(route_input(false, true, Some(ControlKey::KeyR)), InputOutcome::Consumed);
    assert_eq!(route_input(true, true, None), InputOutcome::Consumed);
}

#[test]
fn only_ignored_events_are_unhandled() {
    assert!(is_handled(InputOutcome::Consumed));
    assert!(is_handled(InputOutcome::TogglePause));
    assert!(is_handled(InputOutcome::Reset));
    assert!(is_handled(InputOutcome::Randomize));
    assert!(!is_handled(InputOutcome::Ignored));
}

#[test]
fn viewport_never_has_a_zero_side() {
    let mut viewport = Viewport::new(0, 0);
    assert_eq!((viewport.width(), viewport.height()), (1, 1));
    assert!(viewport.resize(1280, 750));
    assert_eq!((viewport.width(), viewport.height()), (1280, 750));
    assert!(!viewport.resize(0, 900));
    assert!(!viewport.resize(900, 0));
    assert_eq!((viewport.width(), viewport.height()), (1280, 750));
}

#[test]
fn ui_defaults() {
    let state = UiState::default();
    assert!(state.show_trails);
    assert!(!state.show_neighbor_radius);
    assert!(state.show_bounds);
    let action = UiAction::default();
    assert!(!action.reset && !action.randomize);
}
