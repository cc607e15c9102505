use vstd::prelude::*;
use crate::clock::{AudioClock, spec_fires, spec_step_samples, spec_tick};
use crate::pattern::{Pattern, ToneVoice, STEPS};

verus! {

/// The voices that start on one step.
#[derive(Clone, Copy, Debug, PartialEq, Eq, Structural)]
pub struct StepTriggers {
    pub kick: bool,
    pub hihat_closed: bool,
    pub hihat_open: bool,
    /// The tone's oscillator, when the tone sounds.
    pub tone: Option<ToneVoice>,
}

/// The voices that start when the sequencer reaches `step` of `pattern`:
/// each track whose step is set, and nothing at all while stopped.
pub open spec fn spec_triggers(pattern: Pattern, step: int, playing: bool) -> StepTriggers {
    StepTriggers {
        kick: playing && pattern.kick@[step],
        hihat_closed: playing && pattern.hihat_closed@[step],
        hihat_open: playing && pattern.hihat_open@[step],
        tone: if playing && pattern.tone@[step] {
            Some(pattern.tone_voice)
        } else {
            None
        },
    }
}

/// The voices that start when the sequencer reaches `step` of `pattern`.
pub fn step_triggers(pattern: &Pattern, step: usize, playing: bool) -> (t: StepTriggers)
    requires
        step < STEPS,
    ensures
        t == spec_triggers(*pattern, step as int, playing),
        t.kick == (playing && pattern.kick@[step as int]),
        t.hihat_closed == (playing && pattern.hihat_closed@[step as int]),
        t.hihat_open == (playing && pattern.hihat_open@[step as int]),
        t.tone == (if playing && pattern.tone@[step as int] {
            Some(pattern.tone_voice)
        } else {
            None
        }),
{
    if playing {
        StepTriggers {
            kick: pattern.kick[step],
            hihat_closed: pattern.hihat_closed[step],
            hihat_open: pattern.hihat_open[step],
            tone: if pattern.tone[step] {
                Some(pattern.tone_voice)
            } else {
                None
            },
        }
    } else {
        StepTriggers { kick: false, hihat_closed: false, hihat_open: false, tone: None }
    }
}

/// A step the sequencer has just reached, and the voices that start on it.
#[derive(Clone, Copy, Debug, PartialEq, Eq, Structural)]
pub struct StepEvent {
    pub step: usize,
    pub triggers: StepTriggers,
}

/// One frame of audio: the clock counts it at tempo `bpm`, and when that
/// completes a step the frame reports the new step and the voices of
/// `pattern` that start on it (none while stopped).
pub fn next_frame(clock: &mut AudioClock, bpm: u32, pattern: &Pattern, playing: bool) -> (ev:
    Option<StepEvent>)
    ensures
        final(clock).current_step() < STEPS,
        final(clock).rate() == old(clock).rate(),
        (final(clock).counter(), final(clock).current_step()) == spec_tick(
            old(clock).counter(),
            old(clock).current_step(),
            spec_step_samples(old(clock).rate(), bpm as nat),
        ),
        ev is Some <==> spec_fires(
            old(clock).counter(),
            spec_step_samples(old(clock).rate(), bpm as nat),
        ),
        ev matches Some(e) ==> e.step == final(clock).current_step() && e.triggers
            == spec_triggers(*pattern, e.step as int, playing),
        ev matches Some(e) ==> {
            &&& e.triggers.kick == (playing && pattern.kick@[e.step as int])
            &&& e.triggers.hihat_closed == (playing && pattern.hihat_closed@[e.step as int])
            &&& e.triggers.hihat_open == (playing && pattern.hihat_open@[e.step as int])
            &&& e.triggers.tone == (if playing && pattern.tone@[e.step as int] {
                Some(pattern.tone_voice)
            } else {
                None
            })
        },
{
    match clock.advance(bpm) {
        Some(step) => Some(StepEvent { step, triggers: step_triggers(pattern, step, playing) }),
        None => None,
    }
}

/// While playing, each voice starts on a step exactly when its own track is
/// set on that step, whatever the other tracks hold; the tone plays with the
/// pattern's voice.
pub proof fn lemma_each_voice_follows_its_track(pattern: Pattern, step: int)
    requires
        0 <= step < STEPS,
    ensures
        spec_triggers(pattern, step, true).kick == pattern.kick@[step],
        spec_triggers(pattern, step, true).hihat_closed == pattern.hihat_closed@[step],
        spec_triggers(pattern, step, true).hihat_open == pattern.hihat_open@[step],
        (spec_triggers(pattern, step, true).tone is Some) == pattern.tone@[step],
        spec_triggers(pattern, step, true).tone is Some ==> spec_triggers(
            pattern,
            step,
            true,
        ).tone->0 == pattern.tone_voice,
{
}

/// While the sequencer is stopped no voice ever starts.
pub proof fn lemma_stopped_is_silent(pattern: Pattern, step: int)
    ensures
        spec_triggers(pattern, step, false) == (StepTriggers {
            kick: false,
            hihat_closed: false,
            hihat_open: false,
            tone: None,
        }),
{
}

} // verus!
