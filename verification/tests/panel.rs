use tsq::panel::{
    next_track, page_pip, panel_command, step_color_bool, step_color_hihat, terminal_command,
    track_heart, AppEvent, HeartState, HihatVoice, KeyCommand, PanelState, PipState,
    RoundButtonEvent, RoundButtonState, StepDotState,
};
use tsq::state::SequencerState;

#[test]
fn bool_step_lamps() {
    assert_eq!(step_color_bool(true, true), StepDotState::On);
    assert_eq!(step_color_bool(false, true), StepDotState::On);
    assert_eq!(step_color_bool(true, false), StepDotState::Dim);
    assert_eq!(step_color_bool(false, false), StepDotState::Off);
}

#[test]
fn hihat_step_lamps() {
    assert_eq!(step_color_hihat(&Some(HihatVoice::Open), true), StepDotState::On);
    assert_eq!(step_color_hihat(&None, true), StepDotState::On);
    assert_eq!(step_color_hihat(&Some(HihatVoice::Open), false), StepDotState::Dim);
    assert_eq!(step_color_hihat(&Some(HihatVoice::Closed), false), StepDotState::HalfDim);
    assert_eq!(step_color_hihat(&None, false), StepDotState::Off);
}

#[test]
fn page_lamps_cover_two_steps_each() {
    assert_eq!(page_pip(0, 0), PipState::On);
    assert_eq!(page_pip(0, 1), PipState::On);
    assert_eq!(page_pip(1, 1), PipState::Off);
    assert_eq!(page_pip(1, 2), PipState::On);
    assert_eq!(page_pip(3, 7), PipState::On);
    for current in 0..8 {
        let lit = (0..4).filter(|&i| page_pip(i, current) == PipState::On).count();
        assert_eq!(lit, 1);
    }
}

#[test]
fn track_lamp_follows_the_selection() {
    assert_eq!(track_heart(2, 2), HeartState::On);
    assert_eq!(track_heart(1, 2), HeartState::Off);
}

#[test]
fn track_selection_cycles() {
    assert_eq!(next_track(0), 1);
    assert_eq!(next_track(3), 0);
    let mut t = 2;
    for _ in 0..4 {
        t = next_track(t);
    }
    assert_eq!(t, 2);
}

#[test]
fn keys_map_to_commands() {
    assert_eq!(terminal_command('q'), Some(KeyCommand::Quit));
    assert_eq!(terminal_command('r'), Some(KeyCommand::Randomize));
    assert_eq!(terminal_command('p'), None);
    assert_eq!(panel_command('p'), Some(AppEvent::TogglePlay));
    assert_eq!(panel_command('t'), Some(AppEvent::NextTrack));
    assert_eq!(panel_command('r'), Some(AppEvent::Randomize));
    assert_eq!(panel_command('q'), None);
}

#[test]
fn panel_events_act_on_the_state() {
    let mut s = SequencerState::default();
    let mut panel = PanelState::new();
    assert_eq!(panel.selected_track(), 0);
    for expected in [1, 2, 3, 0] {
        panel.event(&mut s, AppEvent::NextTrack);
        assert_eq!(panel.selected_track(), expected);
    }
    assert!(s.playing);
    panel.event(&mut s, AppEvent::TogglePlay);
    assert!(!s.playing);
    assert!(s.reset);
    s.reset = false;
    panel.event(&mut s, AppEvent::Randomize);
    assert!(s.reset);
    assert_eq!(panel.selected_track(), 0);
    panel.event(&mut s, AppEvent::Tick);
    assert!(!s.playing);
    assert!(s.reset);
    panel.event(&mut s, AppEvent::TogglePlay);
    assert!(s.playing);
}

#[test]
fn round_button_press_and_release() {
    let mut b = RoundButtonState { pressed: false };
    b.event(RoundButtonEvent::Press);
    assert!(b.pressed);
    b.event(RoundButtonEvent::Release);
    assert!(!b.pressed);
}
