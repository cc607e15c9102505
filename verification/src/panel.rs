use vstd::prelude::*;
use crate::pattern::{STEPS, has_default_rows, settled_from};
use crate::state::{SequencerState, spec_toggled, spec_with_pattern};

verus! {

/// Number of tracks the panel can select.
pub const NUM_TRACKS: usize = 4;

/// How brightly a step lamp glows.
#[derive(Clone, Copy, Debug, PartialEq, Eq, Structural)]
pub enum StepDotState {
    Off,
    HalfDim,
    Dim,
    On,
}

/// Which hi-hat sounds on a step of a combined hi-hat track.
#[derive(Clone, Copy, Debug, PartialEq, Eq, Structural)]
pub enum HihatVoice {
    Open,
    Closed,
}

/// A page lamp above the steps.
#[derive(Clone, Copy, Debug, PartialEq, Eq, Structural)]
pub enum PipState {
    Off,
    On,
}

/// A track-selection lamp.
#[derive(Clone, Copy, Debug, PartialEq, Eq, Structural)]
pub enum HeartState {
    Off,
    On,
}

/// A key command of the terminal front end.
#[derive(Clone, Copy, Debug, PartialEq, Eq, Structural)]
pub enum KeyCommand {
    Quit,
    Randomize,
}

/// What the panel reacts to: the display timer's tick and its three
/// controls.
#[derive(Clone, Copy, Debug, PartialEq, Eq, Structural)]
pub enum AppEvent {
    Tick,
    Randomize,
    NextTrack,
    TogglePlay,
}

/// The lamp of a step of an on/off track: full on the step that sounds now,
/// dim on another set step, off otherwise.
pub fn step_color_bool(active: bool, is_current: bool) -> (s: StepDotState)
    ensures
        s == (if is_current {
            StepDotState::On
        } else if active {
            StepDotState::Dim
        } else {
            StepDotState::Off
        }),
{
    match (active, is_current) {
        (_, true) => StepDotState::On,
        (true, false) => StepDotState::Dim,
        (false, false) => StepDotState::Off,
    }
}

/// The lamp of a step of the hi-hat track: full on the step that sounds now,
/// dim on another open hi-hat, half dim on another closed one, off on a
/// silent step.
pub fn step_color_hihat(step: &Option<HihatVoice>, is_current: bool) -> (s: StepDotState)
    ensures
        s == (if is_current {
            StepDotState::On
        } else {
            match *step {
                Some(HihatVoice::Open) => StepDotState::Dim,
                Some(HihatVoice::Closed) => StepDotState::HalfDim,
                None => StepDotState::Off,
            }
        }),
{
    match (step, is_current) {
        (_, true) => StepDotState::On,
        (Some(HihatVoice::Open), false) => StepDotState::Dim,
        (Some(HihatVoice::Closed), false) => StepDotState::HalfDim,
        (None, false) => StepDotState::Off,
    }
}

/// Whether the page lamp `index` is lit while step `current` sounds: each lamp
/// stands for two consecutive steps.
pub open spec fn spec_page_lit(index: nat, current: nat) -> bool {
    index == current / 2
}

/// The page lamp `index`: lit when the step that sounds now, `current`, is
/// one of the two steps it stands for.
pub fn page_pip(index: usize, current: usize) -> (s: PipState)
    ensures
        s == (if spec_page_lit(index as nat, current as nat) {
            PipState::On
        } else {
            PipState::Off
        }),
        (s == PipState::On) <==> (current == 2 * index || current == 2 * index + 1),
{
    if index == current / 2 {
        PipState::On
    } else {
        PipState::Off
    }
}

/// The track lamp `index`: lit when its track is the selected one.
pub fn track_heart(index: usize, selected: usize) -> (s: HeartState)
    ensures
        s == (if index == selected { HeartState::On } else { HeartState::Off }),
{
    if selected == index {
        HeartState::On
    } else {
        HeartState::Off
    }
}

/// The track that the track control selects after `track`, wrapping after
/// the last one.
pub open spec fn spec_next_track(track: nat) -> nat {
    (track + 1) % (NUM_TRACKS as nat)
}

/// The track that the track control selects after `track`.
pub fn next_track(track: usize) -> (next: usize)
    requires
        track < NUM_TRACKS,
    ensures
        next == spec_next_track(track as nat),
        next < NUM_TRACKS,
{
    (track + 1) % NUM_TRACKS
}

/// Pressing the track control once per track (four `NextTrack` events in a
/// row) brings the selection back to where it was.
pub proof fn lemma_tracks_cycle(track: nat)
    requires
        track < NUM_TRACKS,
    ensures
        spec_next_track(spec_next_track(spec_next_track(spec_next_track(track)))) == track,
{
}

/// Page lamp `index` stands for the two steps `2 * index` and
/// `2 * index + 1`: it is lit exactly while one of them sounds.
pub proof fn lemma_page_lamp_covers_two_steps(index: nat, current: nat)
    ensures
        spec_page_lit(index, current) <==> (current == 2 * index || current == 2 * index + 1),
{
}

/// While the sequencer is on one of its steps, exactly one page lamp is lit.
pub proof fn lemma_one_page_lit(current: nat)
    requires
        current < STEPS,
    ensures
        exists|i: nat| i < NUM_TRACKS && #[trigger] spec_page_lit(i, current),
        forall|i: nat, j: nat|
            #![trigger spec_page_lit(i, current), spec_page_lit(j, current)]
            spec_page_lit(i, current) && spec_page_lit(j, current) ==> i == j,
{
    assert(spec_page_lit(current / 2, current));
}

/// The command a key of the terminal front end gives: `q` quits and `r`
/// draws a new pattern.
pub fn terminal_command(key: char) -> (cmd: Option<KeyCommand>)
    ensures
        cmd == (if key == 'q' {
            Some(KeyCommand::Quit)
        } else if key == 'r' {
            Some(KeyCommand::Randomize)
        } else {
            None
        }),
{
    if key == 'q' {
        Some(KeyCommand::Quit)
    } else if key == 'r' {
        Some(KeyCommand::Randomize)
    } else {
        None
    }
}

/// The event a key of the panel gives: `p` starts or stops, `t` selects
/// the next track and `r` draws a new pattern.
pub fn panel_command(key: char) -> (ev: Option<AppEvent>)
    ensures
        ev == (if key == 'p' {
            Some(AppEvent::TogglePlay)
        } else if key == 't' {
            Some(AppEvent::NextTrack)
        } else if key == 'r' {
            Some(AppEvent::Randomize)
        } else {
            None
        }),
{
    if key == 'p' {
        Some(AppEvent::TogglePlay)
    } else if key == 't' {
        Some(AppEvent::NextTrack)
    } else if key == 'r' {
        Some(AppEvent::Randomize)
    } else {
        None
    }
}

/// The panel's own state: which track its lamps select, always one of the
/// `NUM_TRACKS` tracks.
pub struct PanelState {
    selected_track: usize,
}

impl PanelState {
    #[verifier::type_invariant]
    spec fn inv(self) -> bool {
        self.selected_track < NUM_TRACKS
    }

    /// The selected track.
    pub closed spec fn selected(self) -> nat {
        self.selected_track as nat
    }

    /// A panel with the first track selected.
    pub fn new() -> (panel: Self)
        ensures
            panel.selected() == 0,
    {
        PanelState { selected_track: 0 }
    }

    /// The selected track, below `NUM_TRACKS`.
    pub fn selected_track(&self) -> (track: usize)
        ensures
            track == self.selected(),
            track < NUM_TRACKS,
    {
        proof {
            use_type_invariant(self);
        }
        self.selected_track
    }

    /// Reacts to an event on the shared state: play starts or stops the
    /// sequencer, track moves the selection on, randomize puts a random
    /// pattern (never one with the default rows) in place, and a tick changes
    /// nothing, the lamps being drawn from the state as it stands. Returns the
    /// coin tosses of a random draw: on randomize the new pattern is the one
    /// they settle on; the other events toss nothing.
    pub fn event(&mut self, shared: &mut SequencerState, event: AppEvent) -> (tosses: Ghost<
        Seq<Seq<bool>>,
    >)
        ensures
            event == AppEvent::Randomize ==> settled_from(tosses@, final(shared).pattern),
            event != AppEvent::Randomize ==> tosses@ == Seq::<Seq<bool>>::empty(),
            final(self).selected() < NUM_TRACKS,
            event == AppEvent::Tick ==> *final(shared) == *old(shared) && final(self).selected()
                == old(self).selected(),
            event == AppEvent::TogglePlay ==> *final(shared) == spec_toggled(*old(shared))
                && final(self).selected() == old(self).selected(),
            event == AppEvent::NextTrack ==> *final(shared) == *old(shared) && final(self).selected()
                == spec_next_track(old(self).selected()),
            event == AppEvent::Randomize ==> final(self).selected() == old(self).selected()
                && !has_default_rows(final(shared).pattern) && *final(shared)
                == spec_with_pattern(*old(shared), final(shared).pattern),
    {
        proof {
            use_type_invariant(&*self);
        }
        let tosses = match event {
            AppEvent::Tick => Ghost(Seq::empty()),
            AppEvent::TogglePlay => {
                shared.toggle_play();
                Ghost(Seq::empty())
            },
            AppEvent::NextTrack => {
                self.selected_track = next_track(self.selected_track);
                Ghost(Seq::empty())
            },
            AppEvent::Randomize => shared.randomize(),
        };
        proof {
            use_type_invariant(&*self);
        }
        tosses
    }
}

/// A press or a release of a round button.
#[derive(Clone, Copy, Debug, PartialEq, Eq, Structural)]
pub enum RoundButtonEvent {
    Press,
    Release,
}

/// Whether a round button is held down.
#[derive(Clone, Copy, Debug, PartialEq, Eq, Structural)]
pub struct RoundButtonState {
    pub pressed: bool,
}

impl RoundButtonState {
    /// A press holds the button down, a release lets it go.
    pub fn event(&mut self, event: RoundButtonEvent)
        ensures
            final(self).pressed == (event == RoundButtonEvent::Press),
    {
        match event {
            RoundButtonEvent::Press => self.pressed = true,
            RoundButtonEvent::Release => self.pressed = false,
        }
    }
}

} // verus!
