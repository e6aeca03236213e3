use polis::sim_core::{model_version, workspace_status, DeterministicRng, EnabledSubsystems, SimulationSeed};

#[test]
fn seed_round_trips() {
    let seed = SimulationSeed::new(42);
    assert_eq!(seed.0, 42);
}

#[test]
fn reports_active_status() {
    assert_eq!(workspace_status(), "active");
}

#[test]
fn reports_version() {
    let v = model_version();
    assert!(v.len() >= 5);
    assert!(v.contains('.'));
}

#[test]
fn deterministic_rng_is_reproducible() {
    let mut a = DeterministicRng::from_u64(42);
    let mut b = DeterministicRng::from_u64(42);
    assert_eq!(a.next_u64(), b.next_u64());
    assert_eq!(a.next_u64(), b.next_u64());
    assert_eq!(a.next_bounded(100), b.next_bounded(100));
}

#[test]
fn enabled_subsystems_default_all() {
    let subs = EnabledSubsystems::default();
    assert!(subs.world_substrate);
    assert!(subs.agents);
    assert!(subs.social_fabric);
    assert!(subs.collective_agency);
    assert!(subs.discovery);
    assert!(subs.biology);
    assert!(subs.inference);
}

#[test]
fn rng_first_draw_matches_splitmix64() {
    // SplitMix64 from state 0: the first output is a published constant.
    let mut rng = DeterministicRng::from_u64(0);
    assert_eq!(rng.next_u64(), 0xE220_A839_7B1D_CDAF);
}

#[test]
fn rng_bounded_draw_is_below_bound_and_zero_bound_gives_zero() {
    let mut rng = DeterministicRng::from_u64(7);
    for _ in 0..100 {
        assert!(rng.next_bounded(13) < 13);
    }
    let mut a = DeterministicRng::from_u64(9);
    let mut b = DeterministicRng::from_u64(9);
    assert_eq!(a.next_bounded(0), 0);
    // A zero bound draws nothing: the next draw is the first one.
    assert_eq!(a.next_u64(), b.next_u64());
}

#[test]
fn rng_from_seed_equals_from_u64() {
    let mut a = DeterministicRng::from_seed(SimulationSeed::new(1234));
    let mut b = DeterministicRng::from_u64(1234);
    assert_eq!(a.next_u64(), b.next_u64());
}

#[test]
fn model_version_is_package_version() {
    assert_eq!(model_version(), "0.1.0");
}

#[test]
fn copied_generator_continues_the_same_stream() {
    let mut a = DeterministicRng::from_u64(5);
    let mut whole = DeterministicRng::from_u64(5);
    a.next_u64();
    a.next_u64();
    let mut b = a;
    whole.next_u64();
    whole.next_u64();
    let third = whole.next_u64();
    assert_eq!(a.next_u64(), third);
    assert_eq!(b.next_u64(), third);
}
