use wstm::pattern::{PatternTransition, PATTERN_MODE_COUNT, PATTERN_RNG_SEED};

fn step(x: u64) -> u64 {
    x.wrapping_mul(1664525).wrapping_add(1013904223)
}

#[test]
fn pattern_transition_never_reuses_current_mode() {
    let mut state = PatternTransition::new();
    let next = state.pick_next_mode(0);
    assert_ne!(next, 0);
    assert!(next < PATTERN_MODE_COUNT);
}

#[test]
fn new_starts_at_pattern_zero_with_a_different_next_pattern() {
    let state = PatternTransition::new();
    assert_eq!(state.current_mode, 0);
    assert_ne!(state.next_mode, 0);
    assert!(state.next_mode < PATTERN_MODE_COUNT);
}

#[test]
fn new_follows_the_generator_from_its_seed() {
    // The seed designates pattern 0x6a09e667f3bcc909 % 20; if that is 0 the
    // generator steps once more before picking.
    let mut rng = PATTERN_RNG_SEED;
    let mut next = (rng % 20) as u32;
    if next == 0 {
        rng = step(rng);
        next = (rng % 20) as u32;
    }
    rng = step(rng);
    let state = PatternTransition::new();
    assert_eq!(state.next_mode, next);
    let mut draws = Vec::new();
    for _ in 0..8 {
        rng = step(rng);
        draws.push((rng & 0x00ff_ffff) as u32);
    }
    assert_eq!(state.seeds.seed, draws[0]);
    assert_eq!(state.seeds.flow, draws[1]);
    assert_eq!(state.seeds.chaos, draws[2]);
    assert_eq!(state.seeds.twist, draws[3]);
    assert_eq!(state.seeds.drift, draws[4]);
    assert_eq!(state.seeds.pulse, draws[5]);
    assert_eq!(state.seeds.motion_speed, draws[6]);
    assert_eq!(state.seeds.warp_scale, draws[7]);
    assert_eq!(state.rng_state, rng);
}

#[test]
fn pick_skips_the_current_pattern_in_one_step() {
    let mut state = PatternTransition::new();
    // choose a state whose pattern is 7
    state.rng_state = 7;
    let picked = state.pick_next_mode(7);
    let expected_state = step(7);
    assert_eq!(picked, (expected_state % 20) as u32);
    assert_ne!(picked, 7);
    assert_eq!(state.rng_state, step(expected_state));
}

#[test]
fn pick_keeps_a_pattern_that_differs() {
    let mut state = PatternTransition::new();
    state.rng_state = 45;
    let picked = state.pick_next_mode(3);
    assert_eq!(picked, 5);
    assert_eq!(state.rng_state, step(45));
}

#[test]
fn pick_never_repeats_for_many_states() {
    let mut state = PatternTransition::new();
    let mut x: u64 = 12345;
    for _ in 0..2000 {
        x = step(x) ^ 0x9e37_79b9;
        let current = (x % 20) as u32;
        state.rng_state = x;
        let picked = state.pick_next_mode(current);
        assert_ne!(picked, current);
        assert!(picked < PATTERN_MODE_COUNT);
    }
}

#[test]
fn random_bits_are_the_low_24_bits_of_the_next_state() {
    let mut state = PatternTransition::new();
    state.rng_state = 0xffff_ffff_ffff_ffff;
    let bits = state.random_bits();
    let expected = step(0xffff_ffff_ffff_ffff);
    assert_eq!(state.rng_state, expected);
    assert_eq!(bits, (expected & 0x00ff_ffff) as u32);
    assert!(bits < 0x100_0000);
}

#[test]
fn switch_makes_next_current_and_picks_a_new_next() {
    let mut state = PatternTransition::new();
    for _ in 0..50 {
        let before = state;
        let draws = state.switch_pattern();
        assert_eq!(state.current_mode, before.next_mode);
        assert_ne!(state.next_mode, state.current_mode);
        assert!(state.next_mode < PATTERN_MODE_COUNT);
        assert!(draws.transition < 0x100_0000);
        assert!(draws.hold < 0x100_0000);
        // the timing draws follow the pick, and the seeds follow the timing
        let mut probe = before;
        probe.pick_next_mode(before.next_mode);
        let t = probe.random_bits();
        let h = probe.random_bits();
        assert_eq!(draws.transition, t);
        assert_eq!(draws.hold, h);
        probe.reseed();
        assert_eq!(state.seeds, probe.seeds);
        assert_eq!(state.rng_state, probe.rng_state);
    }
}
