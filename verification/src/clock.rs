use vstd::prelude::*;
use vstd::arithmetic::div_mod::{
    lemma_add_mod_noop_right, lemma_div_by_multiple, lemma_div_is_ordered, lemma_div_plus_one,
    lemma_mod_add_multiples_vanish,
};
use crate::pattern::STEPS;
use crate::binary64::{binary64_beat, lemma_binary64_beat_antitone, spec_binary64_beat};

verus! {

/// Samples in one step at `sample_rate` samples per second and `bpm` beats
/// per minute, two steps to a beat: the samples in one beat as binary64
/// arithmetic gives `(60.0 / bpm) * sample_rate`, truncated and capped at
/// `usize::MAX` as a cast to `usize` does, then halved. A tempo of zero makes
/// the beat endless (`usize::MAX / 2` samples), unless there are no samples at
/// all.
pub open spec fn spec_step_samples(sample_rate: nat, bpm: nat) -> nat {
    if bpm == 0 {
        if sample_rate == 0 { 0 } else { (usize::MAX / 2) as nat }
    } else if sample_rate == 0 {
        0
    } else {
        let beat = spec_binary64_beat(sample_rate, bpm);
        (if beat < usize::MAX { beat } else { usize::MAX as nat }) / 2
    }
}

/// Whether the sample that takes the counter from `counter` to `counter + 1`
/// completes a step of `threshold` samples.
pub open spec fn spec_fires(counter: nat, threshold: nat) -> bool {
    counter + 1 >= threshold
}

/// Counter and step after one sample: a completed step restarts the counter
/// and moves to the next step, wrapping after the last one.
pub open spec fn spec_tick(counter: nat, step: nat, threshold: nat) -> (nat, nat) {
    if spec_fires(counter, threshold) {
        (0, (step + 1) % (STEPS as nat))
    } else {
        (counter + 1, step)
    }
}

/// Counter and step after `n` samples at a fixed step length.
pub open spec fn spec_run(counter: nat, step: nat, threshold: nat, n: nat) -> (nat, nat)
    decreases n,
{
    if n == 0 {
        (counter, step)
    } else {
        let next = spec_tick(counter, step, threshold);
        spec_run(next.0, next.1, threshold, (n - 1) as nat)
    }
}

/// How many of `n` samples at a fixed step length complete a step.
pub open spec fn spec_fire_count(counter: nat, step: nat, threshold: nat, n: nat) -> nat
    decreases n,
{
    if n == 0 {
        0
    } else {
        let next = spec_tick(counter, step, threshold);
        (if spec_fires(counter, threshold) { 1nat } else { 0nat })
            + spec_fire_count(next.0, next.1, threshold, (n - 1) as nat)
    }
}

/// Counts the samples of the audio stream and tells when the sequencer moves
/// to its next step. The counter always has room for one more sample and the
/// step is always a step of the pattern.
pub struct AudioClock {
    sample_rate: u32,
    sample_counter: usize,
    step: usize,
}

impl AudioClock {
    /// Samples per second that the clock counts.
    pub closed spec fn rate(&self) -> nat {
        self.sample_rate as nat
    }

    /// Samples counted since the current step began.
    pub closed spec fn counter(&self) -> nat {
        self.sample_counter as nat
    }

    /// The step that sounds now.
    pub closed spec fn current_step(&self) -> nat {
        self.step as nat
    }

    #[verifier::type_invariant]
    spec fn inv(self) -> bool {
        &&& self.sample_counter < usize::MAX
        &&& self.step < STEPS
    }

    /// A clock at the first step with nothing counted yet.
    pub fn new(sample_rate: u32) -> (clock: Self)
        ensures
            clock.rate() == sample_rate,
            clock.counter() == 0,
            clock.current_step() == 0,
    {
        AudioClock { sample_rate, sample_counter: 0, step: 0 }
    }

    /// The step that sounds now, below `STEPS`.
    pub fn current(&self) -> (s: usize)
        ensures
            s == self.current_step(),
            s < STEPS,
    {
        proof {
            use_type_invariant(self);
        }
        self.step
    }

    /// Samples in one step at tempo `bpm`.
    pub fn step_samples(&self, bpm: u32) -> (n: usize)
        ensures
            n == spec_step_samples(self.rate(), bpm as nat),
    {
        if bpm == 0 {
            if self.sample_rate == 0 {
                0
            } else {
                usize::MAX / 2
            }
        } else if self.sample_rate == 0 {
            0
        } else {
            let beat: u128 = binary64_beat(self.sample_rate, bpm);
            let capped: usize = if beat < usize::MAX as u128 {
                beat as usize
            } else {
                usize::MAX
            };
            capped / 2
        }
    }

    /// Counts one sample at tempo `bpm`. When it completes the current step,
    /// the counter starts over and the clock moves to the next step, which it
    /// returns; otherwise it returns `None`.
    pub fn advance(&mut self, bpm: u32) -> (fired: Option<usize>)
        ensures
            final(self).current_step() < STEPS,
            final(self).rate() == old(self).rate(),
            (final(self).counter(), final(self).current_step()) == spec_tick(
                old(self).counter(),
                old(self).current_step(),
                spec_step_samples(old(self).rate(), bpm as nat),
            ),
            fired is Some <==> spec_fires(
                old(self).counter(),
                spec_step_samples(old(self).rate(), bpm as nat),
            ),
            fired is Some ==> fired->0 == final(self).current_step(),
    {
        proof {
            use_type_invariant(&*self);
        }
        let threshold = self.step_samples(bpm);
        let counted = self.sample_counter + 1;
        if counted >= threshold {
            self.sample_counter = 0;
            self.step = (self.step + 1) % STEPS;
            Some(self.step)
        } else {
            self.sample_counter = counted;
            None
        }
    }
}

/// A slower tempo never gives shorter steps: for tempos `0 < slow <= fast`
/// and any 32-bit sample rate, a step at `slow` lasts at least as many
/// samples as one at `fast`.
pub proof fn lemma_step_samples_antitone(sample_rate: u32, slow: u32, fast: u32)
    requires
        0 < slow <= fast,
    ensures
        spec_step_samples(sample_rate as nat, slow as nat) >= spec_step_samples(
            sample_rate as nat,
            fast as nat,
        ),
{
    if sample_rate > 0 {
        lemma_binary64_beat_antitone(sample_rate as nat, slow as nat, fast as nat);
        let bs = spec_binary64_beat(sample_rate as nat, slow as nat);
        let bf = spec_binary64_beat(sample_rate as nat, fast as nat);
        let cs: int = if bs < usize::MAX { bs as int } else { usize::MAX as int };
        let cf: int = if bf < usize::MAX { bf as int } else { usize::MAX as int };
        lemma_div_is_ordered(cf, cs, 2);
    }
}

/// With steps of `threshold >= 1` samples and a counter below it, `n` more
/// samples leave the counter at `(counter + n) % threshold`, complete
/// `(counter + n) / threshold` steps, and move the step on by as many,
/// wrapping after the last one.
pub proof fn lemma_run_closed_form(counter: nat, step: nat, threshold: nat, n: nat)
    requires
        1 <= threshold,
        counter < threshold,
        step < STEPS,
    ensures
        spec_run(counter, step, threshold, n) == (
            (counter + n) % threshold,
            (step + (counter + n) / threshold) % (STEPS as nat),
        ),
        spec_fire_count(counter, step, threshold, n) == (counter + n) / threshold,
    decreases n,
{
    let t = threshold as int;
    let s8 = STEPS as int;
    if n == 0 {
        vstd::arithmetic::div_mod::lemma_small_mod(counter, threshold);
        vstd::arithmetic::div_mod::lemma_small_mod(step, STEPS as nat);
        assert((counter as int) / t == 0) by {
            vstd::arithmetic::div_mod::lemma_basic_div(counter as int, t);
        }
    } else if counter + 1 >= threshold {
        // the first sample completes the step
        let m: nat = (n - 1) as nat;
        lemma_run_closed_form(0, (step + 1) % STEPS as nat, threshold, m);
        assert(counter + n == t + m);
        lemma_mod_add_multiples_vanish(m as int, t);
        lemma_div_plus_one(m as int, t);
        lemma_add_mod_noop_right(m as int / t, step as int + 1, s8);
        assert((((step + 1) % (STEPS as nat)) + m / threshold) % (STEPS as nat)
            == (step + (counter + n) / threshold) % (STEPS as nat));
    } else {
        lemma_run_closed_form(counter + 1, step, threshold, (n - 1) as nat);
    }
}

/// With steps of zero samples every sample completes a step.
pub proof fn lemma_run_zero_threshold(counter: nat, step: nat, n: nat)
    requires
        step < STEPS,
    ensures
        spec_run(counter, step, 0, n) == (if n == 0 { counter } else { 0 }, (step + n) % (
        STEPS as nat)),
        spec_fire_count(counter, step, 0, n) == n,
    decreases n,
{
    if n == 0 {
        vstd::arithmetic::div_mod::lemma_small_mod(step, STEPS as nat);
    } else {
        lemma_run_zero_threshold(0, (step + 1) % STEPS as nat, (n - 1) as nat);
        lemma_add_mod_noop_right((n - 1) as int, step as int + 1, STEPS as int);
    }
}

/// From a fresh count, a full loop of `STEPS` steps of `threshold >= 1`
/// samples brings the clock back to the step it started on, with every step
/// completed once.
pub proof fn lemma_loop_returns_to_start(step: nat, threshold: nat)
    requires
        1 <= threshold,
        step < STEPS,
    ensures
        spec_run(0, step, threshold, STEPS as nat * threshold) == (0nat, step),
        spec_fire_count(0, step, threshold, STEPS as nat * threshold) == STEPS as nat,
{
    let n = STEPS as nat * threshold;
    lemma_run_closed_form(0, step, threshold, n);
    lemma_div_by_multiple(STEPS as int, threshold as int);
    vstd::arithmetic::mul::lemma_mul_is_commutative(STEPS as int, threshold as int);
    vstd::arithmetic::div_mod::lemma_mod_multiples_basic(STEPS as int, threshold as int);
    lemma_mod_add_multiples_vanish(step as int, STEPS as int);
    vstd::arithmetic::div_mod::lemma_small_mod(step, STEPS as nat);
}

} // verus!
