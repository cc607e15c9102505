use vstd::prelude::*;

verus! {

/// Number of steps in one loop of the pattern.
pub const STEPS: usize = 8;

/// Number of fair coins that one random pattern consumes: one per step of
/// each of the four tracks, and one for the tone's voice.
pub const COINS_PER_PATTERN: usize = 33;

/// The oscillator that plays the tone track.
#[derive(Clone, Copy, Debug, PartialEq, Eq, Structural)]
pub enum ToneVoice {
    Sine,
    Square,
}

/// One loop of the sequencer: for each track, whether it sounds on each step.
#[derive(Clone, Copy, Debug)]
pub struct Pattern {
    pub kick: [bool; STEPS],
    pub hihat_closed: [bool; STEPS],
    pub hihat_open: [bool; STEPS],
    pub tone: [bool; STEPS],
    pub tone_voice: ToneVoice,
}

/// Kick on the first and fifth step.
pub open spec fn default_kick() -> Seq<bool> {
    seq![true, false, false, false, true, false, false, false]
}

/// Closed hi-hat on every step.
pub open spec fn default_hihat_closed() -> Seq<bool> {
    seq![true, true, true, true, true, true, true, true]
}

/// Open hi-hat on the last step only.
pub open spec fn default_hihat_open() -> Seq<bool> {
    seq![false, false, false, false, false, false, false, true]
}

/// Tone on the first, third, sixth and eighth step.
pub open spec fn default_tone() -> Seq<bool> {
    seq![true, false, true, false, false, true, false, true]
}

impl Default for Pattern {
    /// The built-in groove: kick on beats one and five, closed hi-hat on
    /// every step, an open hi-hat at the end and a sine melody.
    fn default() -> (p: Self)
        ensures
            p.kick@ == default_kick(),
            p.hihat_closed@ == default_hihat_closed(),
            p.hihat_open@ == default_hihat_open(),
            p.tone@ == default_tone(),
            p.tone_voice == ToneVoice::Sine,
    {
        let p = Pattern {
            kick: [true, false, false, false, true, false, false, false],
            hihat_closed: [true, true, true, true, true, true, true, true],
            hihat_open: [false, false, false, false, false, false, false, true],
            tone: [true, false, true, false, false, true, false, true],
            tone_voice: ToneVoice::Sine,
        };
        assert(p.kick@ =~= default_kick());
        assert(p.hihat_closed@ =~= default_hihat_closed());
        assert(p.hihat_open@ =~= default_hihat_open());
        assert(p.tone@ =~= default_tone());
        p
    }
}

/// `p` is the pattern that the coin tosses `coins` describe: the first eight
/// fill the kick track step by step, the next eight the closed hi-hat, then
/// the open hi-hat, then the tone; the last picks the sine voice when it
/// shows `true` and the square voice otherwise.
pub open spec fn describes(coins: Seq<bool>, p: Pattern) -> bool {
    &&& coins.len() == COINS_PER_PATTERN
    &&& p.kick@ == coins.subrange(0, 8)
    &&& p.hihat_closed@ == coins.subrange(8, 16)
    &&& p.hihat_open@ == coins.subrange(16, 24)
    &&& p.tone@ == coins.subrange(24, 32)
    &&& p.tone_voice == (if coins[32] { ToneVoice::Sine } else { ToneVoice::Square })
}

/// The eight coins at `start ..= start + 7`, in order, as one track.
fn track_from_coins(coins: &[bool], start: usize) -> (track: [bool; STEPS])
    requires
        start + STEPS <= coins@.len(),
    ensures
        track@ == coins@.subrange(start as int, start + STEPS),
{
    let track = [
        coins[start],
        coins[start + 1],
        coins[start + 2],
        coins[start + 3],
        coins[start + 4],
        coins[start + 5],
        coins[start + 6],
        coins[start + 7],
    ];
    assert(track@ =~= coins@.subrange(start as int, start + STEPS));
    track
}

/// The pattern that a sequence of coin tosses describes (see `describes`).
pub fn pattern_from_coins(coins: &[bool]) -> (p: Pattern)
    requires
        coins@.len() == COINS_PER_PATTERN,
    ensures
        describes(coins@, p),
{
    Pattern {
        kick: track_from_coins(coins, 0),
        hihat_closed: track_from_coins(coins, STEPS),
        hihat_open: track_from_coins(coins, 2 * STEPS),
        tone: track_from_coins(coins, 3 * STEPS),
        tone_voice: if coins[4 * STEPS] {
            ToneVoice::Sine
        } else {
            ToneVoice::Square
        },
    }
}

/// Tosses a fair coin with `fastrand::bool`, which draws from the
/// thread-local generator. Nothing is stated of the outcome: it depends on
/// the generator's hidden state.
#[verifier::external_body]
fn toss_coin() -> bool {
    fastrand::bool()
}

/// Number of fresh draws `random_pattern` makes when a draw repeats the
/// default rows, before it changes a step itself.
pub const REDRAWS: usize = 4;

/// The four rows of `p` are those of the default pattern.
pub open spec fn has_default_rows(p: Pattern) -> bool {
    &&& p.kick@ == default_kick()
    &&& p.hihat_closed@ == default_hihat_closed()
    &&& p.hihat_open@ == default_hihat_open()
    &&& p.tone@ == default_tone()
}

/// Whether two tracks set the same steps.
fn same_track(a: &[bool; STEPS], b: &[bool; STEPS]) -> (same: bool)
    ensures
        same == (a@ == b@),
{
    let mut i: usize = 0;
    while i < STEPS
        invariant
            i <= STEPS,
            forall|j: int| 0 <= j < i ==> a@[j] == b@[j],
        decreases STEPS - i,
    {
        if a[i] != b[i] {
            return false;
        }
        i = i + 1;
    }
    assert(a@ =~= b@);
    true
}

/// Whether the four rows of `p` are those of the default pattern.
fn repeats_default(p: &Pattern) -> (same: bool)
    ensures
        same == has_default_rows(*p),
{
    let d = Pattern::default();
    same_track(&p.kick, &d.kick) && same_track(&p.hihat_closed, &d.hihat_closed)
        && same_track(&p.hihat_open, &d.hihat_open) && same_track(&p.tone, &d.tone)
}

/// One draw: 33 coin tosses, made into the pattern that they describe.
fn draw_pattern() -> (r: (Pattern, Ghost<Seq<bool>>))
    ensures
        describes(r.1@, r.0),
{
    let mut coins: Vec<bool> = Vec::new();
    while coins.len() < COINS_PER_PATTERN
        invariant
            coins@.len() <= COINS_PER_PATTERN,
        decreases COINS_PER_PATTERN - coins@.len(),
    {
        coins.push(toss_coin());
    }
    (pattern_from_coins(coins.as_slice()), Ghost(coins@))
}

/// The position of the draw that `pattern_from_draws` keeps: the first one
/// whose rows are not the default rows, or the last one when every draw
/// repeats them.
pub open spec fn spec_kept_draw(draws: Seq<Pattern>) -> int
    decreases draws.len(),
{
    if draws.len() <= 1 || !has_default_rows(draws[0]) {
        0
    } else {
        1 + spec_kept_draw(draws.drop_first())
    }
}

/// The pattern kept from a series of draws: the first draw whose rows are not
/// the default rows; when every draw repeats them, the last draw with its
/// second kick step flipped.
pub fn pattern_from_draws(draws: &[Pattern]) -> (p: Pattern)
    requires
        draws@.len() >= 1,
    ensures
        0 <= spec_kept_draw(draws@) < draws@.len(),
        ({
            let kept = draws@[spec_kept_draw(draws@)];
            if has_default_rows(kept) {
                &&& p.kick@ == kept.kick@.update(1, !kept.kick@[1])
                &&& p.hihat_closed == kept.hihat_closed
                &&& p.hihat_open == kept.hihat_open
                &&& p.tone == kept.tone
                &&& p.tone_voice == kept.tone_voice
            } else {
                p == kept
            }
        }),
        !has_default_rows(p),
{
    let mut i: usize = 0;
    assert(draws@.skip(0) =~= draws@);
    while i < draws.len() - 1 && repeats_default(&draws[i])
        invariant
            i < draws@.len(),
            spec_kept_draw(draws@) == i + spec_kept_draw(draws@.skip(i as int)),
        decreases draws@.len() - i,
    {
        assert(draws@.skip(i as int).drop_first() =~= draws@.skip(i + 1));
        assert(draws@.skip(i as int)[0] == draws@[i as int]);
        i = i + 1;
    }
    assert(draws@.skip(i as int)[0] == draws@[i as int]);
    assert(spec_kept_draw(draws@.skip(i as int)) == 0);
    let mut p = draws[i];
    if repeats_default(&p) {
        p.kick[1] = !p.kick[1];
        assert(p.kick@[1] != default_kick()[1]);
    }
    p
}

/// The 33 tosses `coins` spell the default rows in their first 32 tosses.
pub open spec fn spells_default_rows(coins: Seq<bool>) -> bool {
    &&& coins.len() == COINS_PER_PATTERN
    &&& coins.subrange(0, 8) == default_kick()
    &&& coins.subrange(8, 16) == default_hihat_closed()
    &&& coins.subrange(16, 24) == default_hihat_open()
    &&& coins.subrange(24, 32) == default_tone()
}

/// `p` is what a series of draws of 33 tosses each settles on: at most
/// `REDRAWS + 1` draws, all but the last spelling the default rows; `p` is
/// the pattern the last draw describes, or, when that draw spells the default
/// rows too, the one it describes with its second toss turned over.
pub open spec fn settled_from(tosses: Seq<Seq<bool>>, p: Pattern) -> bool {
    &&& 1 <= tosses.len() <= REDRAWS + 1
    &&& forall|i: int| 0 <= i < tosses.len() ==> (#[trigger] tosses[i]).len() == COINS_PER_PATTERN
    &&& forall|i: int| 0 <= i < tosses.len() - 1 ==> spells_default_rows(#[trigger] tosses[i])
    &&& if spells_default_rows(tosses.last()) {
        describes(tosses.last().update(1, !tosses.last()[1]), p)
    } else {
        describes(tosses.last(), p)
    }
}

/// When every draw but the last repeats the default rows, the last one is
/// the draw kept.
proof fn lemma_kept_last(draws: Seq<Pattern>)
    requires
        draws.len() >= 1,
        forall|i: int| 0 <= i < draws.len() - 1 ==> has_default_rows(#[trigger] draws[i]),
    ensures
        spec_kept_draw(draws) == draws.len() - 1,
    decreases draws.len(),
{
    if draws.len() > 1 {
        assert(has_default_rows(draws[0]));
        let rest = draws.drop_first();
        assert forall|i: int| 0 <= i < rest.len() - 1 implies has_default_rows(
            #[trigger] rest[i],
        ) by {
            assert(rest[i] == draws[i + 1]);
        }
        lemma_kept_last(rest);
    }
}

/// A pattern drawn at random that always differs from the default one,
/// together with the coin tosses it was drawn with: every step of every
/// track, and the tone's voice, decided by its own toss. A draw whose rows
/// repeat the default rows is thrown away and drawn again, up to `REDRAWS`
/// times, and `pattern_from_draws` settles the draws.
pub fn random_pattern_with_tosses() -> (r: (Pattern, Ghost<Seq<Seq<bool>>>))
    ensures
        settled_from(r.1@, r.0),
        !has_default_rows(r.0),
{
    let mut draws: Vec<Pattern> = Vec::new();
    let (first, Ghost(coins)) = draw_pattern();
    draws.push(first);
    let ghost mut tosses: Seq<Seq<bool>> = seq![coins];
    while draws.len() <= REDRAWS && repeats_default(&draws[draws.len() - 1])
        invariant
            1 <= draws@.len() <= REDRAWS + 1,
            tosses.len() == draws@.len(),
            forall|i: int| 0 <= i < draws@.len() ==> describes(#[trigger] tosses[i], draws@[i]),
            forall|i: int| 0 <= i < draws@.len() - 1 ==> has_default_rows(#[trigger] draws@[i]),
        decreases REDRAWS + 1 - draws@.len(),
    {
        let (next, Ghost(coins)) = draw_pattern();
        draws.push(next);
        proof {
            tosses = tosses.push(coins);
        }
    }
    proof {
        lemma_kept_last(draws@);
    }
    let p = pattern_from_draws(draws.as_slice());
    proof {
        let last = tosses.last();
        let kept = draws@[draws@.len() - 1];
        assert(describes(last, kept));
        assert(spells_default_rows(last) == has_default_rows(kept));
        assert forall|i: int| 0 <= i < tosses.len() - 1 implies spells_default_rows(
            #[trigger] tosses[i],
        ) by {
            assert(describes(tosses[i], draws@[i]));
            assert(has_default_rows(draws@[i]));
        }
        assert forall|i: int| 0 <= i < tosses.len() implies (#[trigger] tosses[i]).len()
            == COINS_PER_PATTERN by {
            assert(describes(tosses[i], draws@[i]));
        }
        if has_default_rows(kept) {
            let turned = last.update(1, !last[1]);
            assert(turned.subrange(0, 8) =~= last.subrange(0, 8).update(1, !last[1]));
            assert(turned.subrange(8, 16) =~= last.subrange(8, 16));
            assert(turned.subrange(16, 24) =~= last.subrange(16, 24));
            assert(turned.subrange(24, 32) =~= last.subrange(24, 32));
            assert(describes(turned, p));
        }
    }
    (p, Ghost(tosses))
}

/// The tosses of a draw decide every field of the pattern it settles on, each
/// by its own tosses: the tone track by tosses 24 to 31 and the voice by the
/// last toss of the last draw (sine when it shows `true`, square otherwise),
/// so both voices can come out; the hi-hats and the kick likewise, the kick's
/// second step turned over only when every draw spelled the default rows.
pub proof fn lemma_tosses_decide_fields(tosses: Seq<Seq<bool>>, p: Pattern)
    requires
        settled_from(tosses, p),
    ensures
        p.tone_voice == (if tosses.last()[32] { ToneVoice::Sine } else { ToneVoice::Square }),
        p.tone@ == tosses.last().subrange(24, 32),
        p.hihat_open@ == tosses.last().subrange(16, 24),
        p.hihat_closed@ == tosses.last().subrange(8, 16),
        !spells_default_rows(tosses.last()) ==> p.kick@ == tosses.last().subrange(0, 8),
        spells_default_rows(tosses.last()) ==> p.kick@ == default_kick().update(1, true),
{
    let last = tosses.last();
    if spells_default_rows(last) {
        let turned = last.update(1, !last[1]);
        assert(turned.subrange(8, 16) =~= last.subrange(8, 16));
        assert(turned.subrange(16, 24) =~= last.subrange(16, 24));
        assert(turned.subrange(24, 32) =~= last.subrange(24, 32));
        assert(turned.subrange(0, 8) =~= default_kick().update(1, true));
    }
}

/// The pattern a series of draws settles on depends on the tosses alone: two
/// patterns settled from the same tosses are the same, whatever else there
/// was.
pub proof fn lemma_settled_is_determined(tosses: Seq<Seq<bool>>, p1: Pattern, p2: Pattern)
    requires
        settled_from(tosses, p1),
        settled_from(tosses, p2),
    ensures
        p1.kick@ == p2.kick@,
        p1.hihat_closed@ == p2.hihat_closed@,
        p1.hihat_open@ == p2.hihat_open@,
        p1.tone@ == p2.tone@,
        p1.tone_voice == p2.tone_voice,
{
}

/// Both tone voices can come out of a draw: a single draw whose last toss
/// shows `false` settles on the square voice, one whose last toss shows
/// `true` on the sine voice, and the other tosses stay free.
pub proof fn lemma_both_voices_reachable(coins: Seq<bool>, p: Pattern)
    requires
        settled_from(seq![coins], p),
    ensures
        !coins[32] ==> p.tone_voice == ToneVoice::Square,
        coins[32] ==> p.tone_voice == ToneVoice::Sine,
{
    lemma_tosses_decide_fields(seq![coins], p);
    assert(seq![coins].last() == coins);
}

/// A pattern drawn at random that always differs from the default one (see
/// `random_pattern_with_tosses`).
pub fn random_pattern() -> (p: Pattern)
    ensures
        !has_default_rows(p),
        exists|tosses: Seq<Seq<bool>>| settled_from(tosses, p),
{
    let (p, Ghost(tosses)) = random_pattern_with_tosses();
    assert(settled_from(tosses, p));
    p
}

} // verus!
