use melos::parser::parse;
use melos::state::{handle_key, AppState, KeyInput, PlaybackState, ViewMode};
use melos::walker::walk;

fn sample_state() -> AppState {
    let source = r#"
    Title: "State Test"
    Tempo: 100
    Time: 3/4
    Part: Piano Instrument: Piano {
        | C4 q D4 q E4 q |
    }
    "#;
    let ast = parse(source).expect("Failed to parse");
    let ir = walk(&ast).expect("Failed to walk");
    AppState::new("state.mel".to_string(), ast, ir)
}

#[test]
fn test_app_state_headers() {
    let state = sample_state();
    assert_eq!(state.title(), Some("State Test"));
    assert_eq!(state.tempo(), 100);
    assert_eq!(state.time_signature(), (3, 4));
    assert_eq!(state.key_signature(), None);
    assert_eq!(state.track_count(), 2);
    assert_eq!(state.track_names(), vec!["Conductor", "Piano"]);
    // Three quarter notes end at tick 1440: beat 4 of the piece.
    assert_eq!(state.total_beats, 4);
}

#[test]
fn test_scrolling_clamps() {
    let mut state = sample_state();
    state.total_beats = 40;
    state.beats_visible = 16;
    state.scroll_right(10);
    assert_eq!(state.scroll_beat, 10);
    state.scroll_right(1000);
    assert_eq!(state.scroll_beat, 24); // 40 - 16
    state.scroll_left(4);
    assert_eq!(state.scroll_beat, 20);
    state.scroll_left(1000);
    assert_eq!(state.scroll_beat, 0);
    state.scroll_end();
    assert_eq!(state.scroll_beat, 24);
    state.scroll_home();
    assert_eq!(state.scroll_beat, 0);
}

#[test]
fn test_handle_key_transitions() {
    let mut state = sample_state();
    assert_eq!(state.view_mode, ViewMode::Score);
    handle_key(KeyInput::CycleView, &mut state);
    assert_eq!(state.view_mode, ViewMode::Tracks);
    handle_key(KeyInput::CycleView, &mut state);
    assert_eq!(state.view_mode, ViewMode::Help);
    handle_key(KeyInput::CycleView, &mut state);
    assert_eq!(state.view_mode, ViewMode::Score);
    handle_key(KeyInput::Help, &mut state);
    assert_eq!(state.view_mode, ViewMode::Help);
    handle_key(KeyInput::Digit(2), &mut state);
    assert_eq!(state.selected_track, 1);
    // A digit beyond the track count leaves the selection alone.
    handle_key(KeyInput::Digit(9), &mut state);
    assert_eq!(state.selected_track, 1);
    assert!(state.running);
    handle_key(KeyInput::Quit, &mut state);
    assert!(!state.running);
}

#[test]
fn test_playback_state_values() {
    // The engine states an external player reports.
    let states = [PlaybackState::Stopped, PlaybackState::Playing, PlaybackState::Paused];
    assert_eq!(states.len(), 3);
    assert_ne!(PlaybackState::Stopped, PlaybackState::Playing);
}
