//! The sequence of visual patterns: which pattern is shown, which one is
//! blended in next, and the pseudo-random draws that parameterise them.
//!
//! Everything here is integer state. The renderer turns the raw 24-bit draws
//! into unit-interval numbers; this module decides the patterns and keeps the
//! generator's state.
use vstd::arithmetic::div_mod::{lemma_add_mod_noop, lemma_mod_mod, lemma_mod_multiples_vanish};
use vstd::prelude::*;

verus! {

/// Number of visual patterns the renderer cycles through.
pub const PATTERN_MODE_COUNT: u32 = 20;

/// The state the pattern generator starts from.
pub const PATTERN_RNG_SEED: u64 = 0x6a09e667f3bcc909;

/// One step of the linear congruential generator, modulo 2^64.
pub open spec fn lcg_next(x: u64) -> u64 {
    ((x as int * 1664525 + 1013904223) % 0x1_0000_0000_0000_0000) as u64
}

/// `n` steps of the generator.
pub open spec fn lcg_iter(x: u64, n: nat) -> u64
    decreases n,
{
    if n == 0 {
        x
    } else {
        lcg_next(lcg_iter(x, (n - 1) as nat))
    }
}

/// The pattern that a generator state designates.
pub open spec fn mode_of(x: u64) -> u32 {
    (x % (PATTERN_MODE_COUNT as u64)) as u32
}

/// The 24 low bits of a generator state: one raw random draw.
pub open spec fn draw_of(x: u64) -> u32 {
    (x % 0x100_0000) as u32
}

/// What picking a pattern different from `current` yields from the generator
/// state `rng`: the pattern, and the generator state afterwards.
///
/// The pattern is the one the state designates; when that is `current`, the
/// generator steps once and the new state's pattern is taken. The generator
/// then steps once more.
pub open spec fn pick_spec(rng: u64, current: u32) -> (u32, u64) {
    if mode_of(rng) != current {
        (mode_of(rng), lcg_next(rng))
    } else {
        (mode_of(lcg_next(rng)), lcg_next(lcg_next(rng)))
    }
}

/// Raw 24-bit draws behind the per-pattern parameters (seed, flow, chaos,
/// twist, drift, pulse, motion speed and warp scale), in the order in which
/// they are drawn.
#[derive(Clone, Copy, Debug, PartialEq, Eq, Structural)]
pub struct PatternSeeds {
    pub seed: u32,
    pub flow: u32,
    pub chaos: u32,
    pub twist: u32,
    pub drift: u32,
    pub pulse: u32,
    pub motion_speed: u32,
    pub warp_scale: u32,
}

/// The seeds drawn from generator state `rng`: the k-th field is the draw of
/// the state after k steps.
pub open spec fn reseed_spec(rng: u64) -> PatternSeeds {
    PatternSeeds {
        seed: draw_of(lcg_iter(rng, 1)),
        flow: draw_of(lcg_iter(rng, 2)),
        chaos: draw_of(lcg_iter(rng, 3)),
        twist: draw_of(lcg_iter(rng, 4)),
        drift: draw_of(lcg_iter(rng, 5)),
        pulse: draw_of(lcg_iter(rng, 6)),
        motion_speed: draw_of(lcg_iter(rng, 7)),
        warp_scale: draw_of(lcg_iter(rng, 8)),
    }
}

/// The raw draws behind the timing of a pattern switch.
#[derive(Clone, Copy, Debug, PartialEq, Eq, Structural)]
pub struct SwitchDraws {
    /// Draw behind the length of the cross-fade.
    pub transition: u32,
    /// Draw behind how long the new pattern is held.
    pub hold: u32,
}

/// The pattern being shown, the pattern being blended in, and the generator.
#[derive(Clone, Copy, Debug)]
pub struct PatternTransition {
    pub current_mode: u32,
    pub next_mode: u32,
    pub seeds: PatternSeeds,
    pub rng_state: u64,
}

/// Stepping the generator always changes the pattern it designates: the
/// generator's state moves by 3 modulo 4, and 4 divides the pattern count.
pub proof fn lemma_step_changes_mode(x: u64)
    ensures
        mode_of(lcg_next(x)) != mode_of(x),
{
    let m: int = 0x1_0000_0000_0000_0000;
    let v: int = x as int * 1664525 + 1013904223;
    let y: int = v % m;
    assert(lcg_next(x) as int == y);
    // y and v agree modulo 4, since 4 divides 2^64.
    lemma_mod_mod(v, 4, 0x4000_0000_0000_0000);
    assert(4 * 0x4000_0000_0000_0000int == m);
    assert(y % 4 == v % 4);
    // v = 4 * k + (x + 3)
    let k: int = x as int * 416131 + 253476055;
    assert(v == 4 * k + (x as int + 3)) by (nonlinear_arith)
        requires
            v == x as int * 1664525 + 1013904223,
            k == x as int * 416131 + 253476055,
    ;
    lemma_mod_multiples_vanish(k, x as int + 3, 4);
    assert(v % 4 == (x as int + 3) % 4);
    // patterns agree modulo 4 with their states
    lemma_mod_mod(y, 4, 5);
    lemma_mod_mod(x as int, 4, 5);
    assert((x as int + 3) % 4 != (x as int) % 4);
}

/// Picking the next pattern never yields the current one, and always yields a
/// valid pattern.
pub proof fn law_pick_never_repeats(rng: u64, current: u32)
    ensures
        pick_spec(rng, current).0 != current,
        pick_spec(rng, current).0 < PATTERN_MODE_COUNT,
{
    lemma_step_changes_mode(rng);
}

/// The pattern picked is the one designated by the first generator state,
/// among the seed state and the states after it, whose pattern differs from
/// `current`; the generator ends one step after that state. In particular,
/// when the state designates `current`, the pattern comes from the state
/// after one step, and the generator ends two steps on.
pub proof fn law_pick_takes_first_differing_state(rng: u64, current: u32)
    ensures
        mode_of(rng) != current ==> pick_spec(rng, current).0 == mode_of(rng)
            && pick_spec(rng, current).1 == lcg_next(rng),
        mode_of(rng) == current ==> pick_spec(rng, current).0 == mode_of(lcg_next(rng))
            && pick_spec(rng, current).1 == lcg_next(lcg_next(rng)),
        exists|k: nat|
            #![trigger lcg_iter(rng, k)]
            {
                &&& pick_spec(rng, current).0 == mode_of(lcg_iter(rng, k))
                &&& mode_of(lcg_iter(rng, k)) != current
                &&& forall|j: nat| j < k ==> mode_of(#[trigger] lcg_iter(rng, j)) == current
                &&& pick_spec(rng, current).1 == lcg_iter(rng, k + 1)
            },
{
    lemma_step_changes_mode(rng);
    reveal_with_fuel(lcg_iter, 3);
    assert(lcg_iter(rng, 0) == rng);
    assert(lcg_iter(rng, 1) == lcg_next(rng));
    assert(lcg_iter(rng, 2) == lcg_next(lcg_next(rng)));
    if mode_of(rng) != current {
        assert(forall|j: nat| j < 0 ==> mode_of(#[trigger] lcg_iter(rng, j)) == current);
    } else {
        assert(forall|j: nat| j < 1 ==> mode_of(#[trigger] lcg_iter(rng, j)) == current);
    }
}

/// One step of the generator.
fn lcg_step(x: u64) -> (r: u64)
    ensures
        r == lcg_next(x),
{
    let p = x.wrapping_mul(1664525);
    let r = p.wrapping_add(1013904223);
    proof {
        let m: int = 0x1_0000_0000_0000_0000;
        lemma_add_mod_noop(x as int * 1664525, 1013904223, m);
        assert(p as int == (x as int * 1664525) % m);
        assert(r as int == (p as int + 1013904223) % m);
    }
    r
}

impl PatternSeeds {
    /// All draws are 24-bit numbers.
    pub open spec fn wf(&self) -> bool {
        &&& self.seed < 0x100_0000
        &&& self.flow < 0x100_0000
        &&& self.chaos < 0x100_0000
        &&& self.twist < 0x100_0000
        &&& self.drift < 0x100_0000
        &&& self.pulse < 0x100_0000
        &&& self.motion_speed < 0x100_0000
        &&& self.warp_scale < 0x100_0000
    }
}

impl PatternTransition {
    /// Both patterns are valid, and the pattern blended in differs from the
    /// one shown.
    pub open spec fn wf(&self) -> bool {
        &&& self.current_mode < PATTERN_MODE_COUNT
        &&& self.next_mode < PATTERN_MODE_COUNT
        &&& self.current_mode != self.next_mode
    }

    /// Starts at pattern 0, picks the pattern to blend in, and draws the
    /// first seeds.
    pub fn new() -> (s: Self)
        ensures
            s.wf(),
            s.current_mode == 0,
            s.next_mode == pick_spec(PATTERN_RNG_SEED, 0).0,
            s.seeds == reseed_spec(pick_spec(PATTERN_RNG_SEED, 0).1),
            s.rng_state == lcg_iter(pick_spec(PATTERN_RNG_SEED, 0).1, 8),
    {
        let mut state = PatternTransition {
            current_mode: 0,
            next_mode: 1,
            seeds: PatternSeeds {
                seed: 0,
                flow: 0,
                chaos: 0,
                twist: 0,
                drift: 0,
                pulse: 0,
                motion_speed: 0,
                warp_scale: 0,
            },
            rng_state: PATTERN_RNG_SEED,
        };
        state.next_mode = state.pick_next_mode(0);
        state.reseed();
        state
    }

    /// Picks a pattern different from `current_mode`.
    pub fn pick_next_mode(&mut self, current_mode: u32) -> (r: u32)
        ensures
            r == pick_spec(old(self).rng_state, current_mode).0,
            final(self).rng_state == pick_spec(old(self).rng_state, current_mode).1,
            mode_of(old(self).rng_state) != current_mode ==> r == mode_of(old(self).rng_state)
                && final(self).rng_state == lcg_next(old(self).rng_state),
            mode_of(old(self).rng_state) == current_mode ==> r == mode_of(
                lcg_next(old(self).rng_state),
            ) && final(self).rng_state == lcg_next(lcg_next(old(self).rng_state)),
            r != current_mode,
            r < PATTERN_MODE_COUNT,
            final(self).current_mode == old(self).current_mode,
            final(self).next_mode == old(self).next_mode,
            final(self).seeds == old(self).seeds,
    {
        let ghost rng0 = self.rng_state;
        proof {
            lemma_step_changes_mode(rng0);
        }
        let mut candidate: u32 = (self.rng_state % (PATTERN_MODE_COUNT as u64)) as u32;
        let mut attempts: u32 = 0;
        while candidate == current_mode && attempts < PATTERN_MODE_COUNT
            invariant
                attempts <= 1,
                mode_of(lcg_next(rng0)) != mode_of(rng0),
                attempts == 0 ==> self.rng_state == rng0 && candidate == mode_of(rng0),
                attempts == 1 ==> {
                    &&& mode_of(rng0) == current_mode
                    &&& self.rng_state == lcg_next(rng0)
                    &&& candidate == mode_of(lcg_next(rng0))
                    &&& candidate != current_mode
                },
                self.current_mode == old(self).current_mode,
                self.next_mode == old(self).next_mode,
                self.seeds == old(self).seeds,
            decreases PATTERN_MODE_COUNT - attempts,
        {
            self.rng_state = lcg_step(self.rng_state);
            candidate = (self.rng_state % (PATTERN_MODE_COUNT as u64)) as u32;
            attempts = attempts + 1;
        }
        self.rng_state = lcg_step(self.rng_state);
        candidate
    }

    /// Steps the generator and returns the 24 low bits of its new state.
    pub fn random_bits(&mut self) -> (r: u32)
        ensures
            final(self).rng_state == lcg_next(old(self).rng_state),
            r == draw_of(final(self).rng_state),
            r < 0x100_0000,
            final(self).current_mode == old(self).current_mode,
            final(self).next_mode == old(self).next_mode,
            final(self).seeds == old(self).seeds,
    {
        self.rng_state = lcg_step(self.rng_state);
        let x = self.rng_state;
        let bits = x & 0x00ff_ffff;
        assert(bits == x % 0x100_0000) by (bit_vector)
            requires
                bits == x & 0x00ff_ffff,
        ;
        bits as u32
    }

    /// Draws fresh seeds for the pattern parameters.
    pub fn reseed(&mut self)
        ensures
            final(self).seeds == reseed_spec(old(self).rng_state),
            final(self).rng_state == lcg_iter(old(self).rng_state, 8),
            final(self).seeds.wf(),
            final(self).current_mode == old(self).current_mode,
            final(self).next_mode == old(self).next_mode,
    {
        let ghost r0 = self.rng_state;
        let seed = self.random_bits();
        let flow = self.random_bits();
        let chaos = self.random_bits();
        let twist = self.random_bits();
        let drift = self.random_bits();
        let pulse = self.random_bits();
        let motion_speed = self.random_bits();
        let warp_scale = self.random_bits();
        proof {
            reveal_with_fuel(lcg_iter, 9);
        }
        self.seeds = PatternSeeds { seed, flow, chaos, twist, drift, pulse, motion_speed, warp_scale };
    }

    /// Switches patterns: the pattern blended in becomes the one shown, a new
    /// pattern different from it is picked to blend in, the timing of the
    /// switch is drawn, and the parameters are reseeded.
    pub fn switch_pattern(&mut self) -> (d: SwitchDraws)
        requires
            old(self).wf(),
        ensures
            final(self).wf(),
            final(self).current_mode == old(self).next_mode,
            final(self).next_mode == pick_spec(old(self).rng_state, old(self).next_mode).0,
            d.transition == draw_of(lcg_iter(pick_spec(old(self).rng_state, old(self).next_mode).1, 1)),
            d.hold == draw_of(lcg_iter(pick_spec(old(self).rng_state, old(self).next_mode).1, 2)),
            final(self).seeds == reseed_spec(lcg_iter(pick_spec(old(self).rng_state, old(self).next_mode).1, 2)),
            final(self).rng_state == lcg_iter(lcg_iter(pick_spec(old(self).rng_state, old(self).next_mode).1, 2), 8),
    {
        self.current_mode = self.next_mode;
        let current = self.current_mode;
        self.next_mode = self.pick_next_mode(current);
        let ghost r1 = self.rng_state;
        let transition = self.random_bits();
        let hold = self.random_bits();
        proof {
            reveal_with_fuel(lcg_iter, 3);
            assert(self.rng_state == lcg_iter(r1, 2));
        }
        self.reseed();
        SwitchDraws { transition, hold }
    }
}

} // verus!
