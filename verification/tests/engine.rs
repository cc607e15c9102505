use tsq::clock::AudioClock;
use tsq::engine::{next_frame, step_triggers, StepEvent, StepTriggers};
use tsq::pattern::{Pattern, ToneVoice};

#[test]
fn triggers_follow_the_pattern_while_playing() {
    let p = Pattern::default();
    assert_eq!(
        step_triggers(&p, 0, true),
        StepTriggers { kick: true, hihat_closed: true, hihat_open: false, tone: Some(ToneVoice::Sine) }
    );
    assert_eq!(
        step_triggers(&p, 7, true),
        StepTriggers { kick: false, hihat_closed: true, hihat_open: true, tone: Some(ToneVoice::Sine) }
    );
    assert_eq!(
        step_triggers(&p, 1, true),
        StepTriggers { kick: false, hihat_closed: true, hihat_open: false, tone: None }
    );
}

#[test]
fn nothing_triggers_while_stopped() {
    let p = Pattern::default();
    for step in 0..8 {
        assert_eq!(
            step_triggers(&p, step, false),
            StepTriggers { kick: false, hihat_closed: false, hihat_open: false, tone: None }
        );
    }
}

#[test]
fn next_frame_reports_the_step_reached() {
    let mut p = Pattern::default();
    p.tone_voice = ToneVoice::Square;
    let mut clock = AudioClock::new(32);
    // 4 samples per step at 240 BPM and 32 samples per second
    for _ in 0..3 {
        assert_eq!(next_frame(&mut clock, 240, &p, true), None);
    }
    assert_eq!(
        next_frame(&mut clock, 240, &p, true),
        Some(StepEvent {
            step: 1,
            triggers: StepTriggers { kick: false, hihat_closed: true, hihat_open: false, tone: None },
        })
    );
    for _ in 0..3 {
        assert_eq!(next_frame(&mut clock, 240, &p, true), None);
    }
    assert_eq!(
        next_frame(&mut clock, 240, &p, true),
        Some(StepEvent {
            step: 2,
            triggers: StepTriggers {
                kick: false,
                hihat_closed: true,
                hihat_open: false,
                tone: Some(ToneVoice::Square),
            },
        })
    );
}
