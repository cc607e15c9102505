use tsq::clock::AudioClock;
use tsq::pattern::{pattern_from_coins, pattern_from_draws, random_pattern, Pattern, ToneVoice, COINS_PER_PATTERN, STEPS};
use tsq::state::{SequencerState, DEFAULT_BPM};

#[test]
fn default_pattern_has_eight_steps() {
    let p = Pattern::default();
    assert_eq!(p.kick.len(), 8);
    assert_eq!(p.hihat_closed.len(), 8);
    assert_eq!(p.hihat_open.len(), 8);
    assert_eq!(p.tone.len(), 8);
}

#[test]
fn default_pattern_kick_on_beats_one_and_five() {
    let p = Pattern::default();
    assert!(p.kick[0]);
    assert!(p.kick[4]);
    assert!(!p.kick[1]);
    assert!(!p.kick[2]);
    assert!(!p.kick[3]);
}

#[test]
fn default_pattern_hihat_closed_on_every_step() {
    let p = Pattern::default();
    assert!(p.hihat_closed.iter().all(|&v| v));
}

#[test]
fn clock_advances_step_after_correct_sample_count() {
    let bpm = 120;
    let sr = 44100;
    let mut clock = AudioClock::new(sr);
    let threshold = clock.step_samples(bpm);

    let mut fired = false;
    for _ in 0..threshold {
        if clock.advance(bpm).is_some() {
            fired = true;
        }
    }
    assert!(fired, "clock must fire exactly once per step window");
    assert_eq!(clock.current(), 1);
}

#[test]
fn clock_wraps_around_after_eight_steps() {
    let bpm = 240;
    let sr = 44100;
    let mut clock = AudioClock::new(sr);
    let threshold = clock.step_samples(bpm);

    for _ in 0..(threshold * STEPS) {
        clock.advance(bpm);
    }
    assert_eq!(clock.current(), 0);
}

#[test]
fn step_samples_scales_with_bpm() {
    let clock_slow = AudioClock::new(44100);
    let clock_fast = AudioClock::new(44100);
    assert!(clock_slow.step_samples(60) > clock_fast.step_samples(120));
}

#[test]
fn random_pattern_has_eight_steps() {
    let p = random_pattern();
    assert_eq!(p.kick.len(), 8);
    assert_eq!(p.tone.len(), 8);
}

#[test]
fn random_pattern_differs_from_default() {
    let default = Pattern::default();
    let random = random_pattern();
    let same = default.kick == random.kick
        && default.hihat_closed == random.hihat_closed
        && default.hihat_open == random.hihat_open
        && default.tone == random.tone;
    assert!(!same, "random pattern should differ from default");
}

#[test]
fn random_patterns_never_repeat_the_default_rows() {
    let d = Pattern::default();
    for _ in 0..1000 {
        let p = random_pattern();
        assert!(
            !(p.kick == d.kick
                && p.hihat_closed == d.hihat_closed
                && p.hihat_open == d.hihat_open
                && p.tone == d.tone)
        );
    }
}

#[test]
fn randomize_never_keeps_the_default_rows() {
    let d = Pattern::default();
    for _ in 0..100 {
        let mut s = SequencerState::default();
        s.randomize();
        assert!(
            !(s.pattern.kick == d.kick
                && s.pattern.hihat_closed == d.hihat_closed
                && s.pattern.hihat_open == d.hihat_open
                && s.pattern.tone == d.tone)
        );
    }
}

#[test]
fn clock_reports_its_step() {
    let mut clock = AudioClock::new(0);
    assert_eq!(clock.current(), 0);
    clock.advance(120);
    assert_eq!(clock.current(), 1);
}

#[test]
fn default_pattern_open_hihat_tone_and_voice() {
    let p = Pattern::default();
    assert_eq!(p.hihat_open, [false, false, false, false, false, false, false, true]);
    assert_eq!(p.tone, [true, false, true, false, false, true, false, true]);
    assert_eq!(p.tone_voice, ToneVoice::Sine);
}

#[test]
fn step_samples_at_default_tempo_is_half_a_beat() {
    let clock = AudioClock::new(44100);
    assert_eq!(clock.step_samples(120), 11025);
    assert_eq!(clock.step_samples(60), 22050);
    assert_eq!(clock.step_samples(240), 5512);
}

#[test]
fn step_samples_at_zero_tempo() {
    assert_eq!(AudioClock::new(44100).step_samples(0), usize::MAX / 2);
    assert_eq!(AudioClock::new(0).step_samples(0), 0);
    assert_eq!(AudioClock::new(0).step_samples(120), 0);
}

#[test]
fn clock_fires_on_the_last_sample_of_a_step_only() {
    let mut clock = AudioClock::new(44100);
    let threshold = clock.step_samples(120);
    for _ in 0..threshold - 1 {
        assert_eq!(clock.advance(120), None);
    }
    assert_eq!(clock.advance(120), Some(1));
    assert_eq!(clock.current(), 1);
}

#[test]
fn clock_counts_completed_steps() {
    // 3 full steps and part of a fourth at 4 samples per step
    let mut clock = AudioClock::new(32);
    let bpm = 240;
    assert_eq!(clock.step_samples(bpm), 4);
    let mut fired = 0;
    for _ in 0..14 {
        if clock.advance(bpm).is_some() {
            fired += 1;
        }
    }
    assert_eq!(fired, 3);
    assert_eq!(clock.current(), 3);
}

#[test]
fn clock_with_zero_length_steps_fires_every_sample() {
    let mut clock = AudioClock::new(0);
    for i in 1..=10 {
        assert_eq!(clock.advance(120), Some(i % STEPS));
    }
}

#[test]
fn pattern_from_coins_fills_tracks_in_order() {
    let mut coins = [false; COINS_PER_PATTERN];
    coins[0] = true;
    coins[9] = true;
    coins[23] = true;
    coins[31] = true;
    let p = pattern_from_coins(&coins);
    assert_eq!(p.kick, [true, false, false, false, false, false, false, false]);
    assert_eq!(p.hihat_closed, [false, true, false, false, false, false, false, false]);
    assert_eq!(p.hihat_open, [false, false, false, false, false, false, false, true]);
    assert_eq!(p.tone, [false, false, false, false, false, false, false, true]);
    assert_eq!(p.tone_voice, ToneVoice::Square);
    coins[32] = true;
    assert_eq!(pattern_from_coins(&coins).tone_voice, ToneVoice::Sine);
}

#[test]
fn sequencer_state_default_is_playing_at_120_bpm() {
    let s = SequencerState::default();
    assert!(s.playing);
    assert_eq!(s.bpm, 120);
    assert_eq!(s.bpm, DEFAULT_BPM);
    assert_eq!(s.current_step, 0);
    assert!(!s.reset);
    assert_eq!(s.pattern.kick, Pattern::default().kick);
}

#[test]
fn replace_pattern_asks_to_cut_voices_once() {
    let mut s = SequencerState::default();
    let mut p = Pattern::default();
    p.kick[2] = true;
    s.replace_pattern(p);
    assert!(s.pattern.kick[2]);
    assert!(s.reset);
    assert!(s.take_reset());
    assert!(!s.take_reset());
    assert!(!s.reset);
}

#[test]
fn randomize_keeps_tempo_and_step() {
    let mut s = SequencerState::default();
    s.current_step = 5;
    s.bpm = 140;
    s.randomize();
    assert!(s.reset);
    assert_eq!(s.bpm, 140);
    assert_eq!(s.current_step, 5);
    assert!(s.playing);
}

#[test]
fn toggle_play_stops_and_starts() {
    let mut s = SequencerState::default();
    s.toggle_play();
    assert!(!s.playing);
    assert!(s.reset);
    assert!(s.take_reset());
    s.toggle_play();
    assert!(s.playing);
    assert!(!s.reset);
}

fn float_step_samples(sr: u32, bpm: u32) -> usize {
    ((60.0 / bpm as f64) * sr as f64) as usize / 2
}

#[test]
fn step_samples_agree_with_binary64_arithmetic() {
    assert_eq!(AudioClock::new(11).step_samples(11), 29);
    assert_eq!(float_step_samples(11, 11), 29);
    for sr in (1..=200).chain([8000, 22050, 44100, 48000, 96000, 192000, u32::MAX]) {
        let clock = AudioClock::new(sr);
        for bpm in (1..=400).chain([997, 65536, 1_000_000, u32::MAX - 1, u32::MAX]) {
            assert_eq!(clock.step_samples(bpm), float_step_samples(sr, bpm), "sr {sr} bpm {bpm}");
        }
    }
    for i in 0..20000u64 {
        let sr = (fastrand::u32(..)) >> (i % 32);
        let bpm = (fastrand::u32(..) >> ((i / 32) % 32)).max(1);
        assert_eq!(AudioClock::new(sr).step_samples(bpm), float_step_samples(sr, bpm), "sr {sr} bpm {bpm}");
    }
}

#[test]
fn pattern_from_draws_keeps_the_first_fresh_draw() {
    let d = Pattern::default();
    let mut fresh = Pattern::default();
    fresh.tone[1] = true;
    let mut other = Pattern::default();
    other.kick[3] = true;
    let kept = pattern_from_draws(&[d, d, fresh, other]);
    assert_eq!(kept.tone, fresh.tone);
    assert_eq!(kept.kick, fresh.kick);
    let kept = pattern_from_draws(&[other]);
    assert_eq!(kept.kick, other.kick);
}

#[test]
fn pattern_from_draws_flips_a_step_when_every_draw_is_default() {
    let mut d = Pattern::default();
    d.tone_voice = ToneVoice::Square;
    let kept = pattern_from_draws(&[d, d, d]);
    assert_eq!(kept.kick, [true, true, false, false, true, false, false, false]);
    assert_eq!(kept.hihat_closed, d.hihat_closed);
    assert_eq!(kept.hihat_open, d.hihat_open);
    assert_eq!(kept.tone, d.tone);
    assert_eq!(kept.tone_voice, ToneVoice::Square);
}
