use vstd::prelude::*;
use crate::pattern::{
    Pattern, random_pattern_with_tosses, has_default_rows, settled_from,
    lemma_settled_is_determined,
};

verus! {

/// Tempo the sequencer plays at, in beats per minute.
pub const DEFAULT_BPM: u32 = 120;

/// What the audio callback and the controls share: the pattern, the tempo,
/// the step that sounds now, whether the sequencer plays, and whether the
/// voices still sounding should be cut off before the next buffer.
#[derive(Clone, Copy, Debug)]
pub struct SequencerState {
    pub pattern: Pattern,
    pub bpm: u32,
    pub current_step: usize,
    pub playing: bool,
    pub reset: bool,
}

/// `s` after the play control: playing flips, and stopping asks for the
/// sounding voices to be cut off.
pub open spec fn spec_toggled(s: SequencerState) -> SequencerState {
    SequencerState {
        playing: !s.playing,
        reset: if s.playing { true } else { s.reset },
        ..s
    }
}

/// `s` with `pattern` in place of its pattern, and the sounding voices to be
/// cut off.
pub open spec fn spec_with_pattern(s: SequencerState, pattern: Pattern) -> SequencerState {
    SequencerState { pattern, reset: true, ..s }
}

/// `s` once its cut-off request has been answered.
pub open spec fn spec_taken(s: SequencerState) -> SequencerState {
    SequencerState { reset: false, ..s }
}

impl Default for SequencerState {
    /// The default pattern, playing at 120 BPM from the first step, with
    /// nothing to cut off.
    fn default() -> (s: Self)
        ensures
            s.pattern.kick@ == crate::pattern::default_kick(),
            s.pattern.hihat_closed@ == crate::pattern::default_hihat_closed(),
            s.pattern.hihat_open@ == crate::pattern::default_hihat_open(),
            s.pattern.tone@ == crate::pattern::default_tone(),
            s.pattern.tone_voice == crate::pattern::ToneVoice::Sine,
            s.bpm == DEFAULT_BPM,
            s.current_step == 0,
            s.playing,
            !s.reset,
    {
        SequencerState {
            pattern: Pattern::default(),
            bpm: DEFAULT_BPM,
            current_step: 0,
            playing: true,
            reset: false,
        }
    }
}

impl SequencerState {
    /// Puts `pattern` in place and asks for the voices of the old one to be
    /// cut off.
    pub fn replace_pattern(&mut self, pattern: Pattern)
        ensures
            *final(self) == spec_with_pattern(*old(self), pattern),
    {
        self.pattern = pattern;
        self.reset = true;
    }

    /// Puts a freshly drawn random pattern, never one with the default rows,
    /// in place and asks for the voices of the old one to be cut off. Returns
    /// the coin tosses of the draw: the new pattern is the one they settle on,
    /// whatever pattern was in place before.
    pub fn randomize(&mut self) -> (tosses: Ghost<Seq<Seq<bool>>>)
        ensures
            settled_from(tosses@, final(self).pattern),
            !has_default_rows(final(self).pattern),
            *final(self) == spec_with_pattern(*old(self), final(self).pattern),
    {
        let (pattern, tosses) = random_pattern_with_tosses();
        self.replace_pattern(pattern);
        tosses
    }

    /// The play control: starts a stopped sequencer, stops a playing one and
    /// then asks for the sounding voices to be cut off.
    pub fn toggle_play(&mut self)
        ensures
            *final(self) == spec_toggled(*old(self)),
    {
        self.playing = !self.playing;
        if !self.playing {
            self.reset = true;
        }
    }

    /// Whether the sounding voices are to be cut off; the request is cleared,
    /// so that it is answered once.
    pub fn take_reset(&mut self) -> (cut: bool)
        ensures
            cut == old(self).reset,
            *final(self) == spec_taken(*old(self)),
    {
        let cut = self.reset;
        self.reset = false;
        cut
    }
}

/// Pressing play twice gives back the playing state one started with, and
/// leaves the pattern, tempo and step as they were.
pub proof fn lemma_toggle_twice(s: SequencerState)
    ensures
        spec_toggled(spec_toggled(s)).playing == s.playing,
        spec_toggled(spec_toggled(s)).pattern == s.pattern,
        spec_toggled(spec_toggled(s)).bpm == s.bpm,
        spec_toggled(spec_toggled(s)).current_step == s.current_step,
{
}

/// Stopping always asks for the sounding voices to be cut off, and starting
/// never clears a request that is pending.
pub proof fn lemma_stop_cuts_voices(s: SequencerState)
    ensures
        s.playing ==> !spec_toggled(s).playing && spec_toggled(s).reset,
        !s.playing ==> spec_toggled(s).playing && spec_toggled(s).reset == s.reset,
{
}

/// A new pattern asks once for the old voices to be cut off: the first
/// answer after it cuts them, the next one does not.
pub proof fn lemma_reset_answered_once(s: SequencerState, pattern: Pattern)
    ensures
        spec_with_pattern(s, pattern).reset,
        !spec_taken(spec_with_pattern(s, pattern)).reset,
        spec_taken(spec_with_pattern(s, pattern)).pattern == pattern,
{
}

/// What `randomize` puts in place does not depend on the pattern it replaces:
/// two states randomized with the same tosses, `s1` into `t1` and `s2` into
/// `t2` as `randomize` ensures, get the same pattern, whatever patterns they
/// held before; and both ask for the old voices to be cut off.
pub proof fn lemma_randomize_ignores_old_pattern(
    tosses: Seq<Seq<bool>>,
    s1: SequencerState,
    t1: SequencerState,
    s2: SequencerState,
    t2: SequencerState,
)
    requires
        settled_from(tosses, t1.pattern),
        t1 == spec_with_pattern(s1, t1.pattern),
        settled_from(tosses, t2.pattern),
        t2 == spec_with_pattern(s2, t2.pattern),
    ensures
        t1.pattern.kick@ == t2.pattern.kick@,
        t1.pattern.hihat_closed@ == t2.pattern.hihat_closed@,
        t1.pattern.hihat_open@ == t2.pattern.hihat_open@,
        t1.pattern.tone@ == t2.pattern.tone@,
        t1.pattern.tone_voice == t2.pattern.tone_voice,
        t1.reset && t2.reset,
{
    lemma_settled_is_determined(tosses, t1.pattern, t2.pattern);
}

} // verus!
