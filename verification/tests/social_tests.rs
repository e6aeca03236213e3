use polis::agents::AgentId;
use polis::sim_core::DeterministicRng;
use polis::social::{CrossSpeciesState, SocialNetwork, SocialTie};

#[test]
fn social_tie_trust_builds_with_cooperation() {
    let mut tie = SocialTie::new(0);
    assert_eq!(tie.trust, 0);

    tie.update_trust(5, 1);
    assert!(tie.trust > 0);
    assert_eq!(tie.cooperation_success, 1);
}

#[test]
fn social_tie_trust_drops_with_conflict() {
    let mut tie = SocialTie::new(0);
    tie.update_trust(10, 1);
    let trust_before = tie.trust;

    tie.update_trust(-10, 2);
    assert!(tie.trust < trust_before);
    assert_eq!(tie.conflict_count, 1);
}

#[test]
fn social_tie_grievance_accumulates() {
    let mut tie = SocialTie::new(0);
    assert_eq!(tie.grievance, 0);

    tie.update_trust(-5, 1);
    assert!(tie.grievance > 0);

    tie.update_trust(-5, 2);
    assert!(tie.grievance >= 5);
}

#[test]
fn social_network_tracks_ties() {
    let mut network = SocialNetwork::new();
    let a = AgentId(1);
    let b = AgentId(2);

    network.record_cooperation(a, b, 10);

    let tie = network.get_tie(a, b).unwrap();
    assert!(tie.trust > 0);
    assert_eq!(tie.interaction_count, 1);
}

#[test]
fn cross_species_harsh_contact_increases_fear() {
    let mut state = CrossSpeciesState::wild();
    let initial_fear = state.fear;

    state.update_from_human_contact(-10, 50, 100);

    assert!(state.fear > initial_fear);
    assert!(state.negative_human_interactions > 0);
}

#[test]
fn cross_species_gentle_contact_increases_tolerance() {
    let mut state = CrossSpeciesState::wild();
    let initial_tolerance = state.human_tolerance;

    state.update_from_human_contact(5, 5, 100);

    assert!(state.human_tolerance > initial_tolerance || state.fear < 80);
    assert!(state.positive_human_interactions > 0);
}

#[test]
fn cross_species_domestication_progress_calculation() {
    let mut state = CrossSpeciesState::wild();
    let initial_progress = state.domestication_progress();
    assert!(initial_progress < 30, "Wild state should have low domestication progress");

    for tick in 0..100 {
        state.update_from_human_contact(3, 5, tick);
    }

    assert!(
        state.domestication_progress() > initial_progress,
        "Domestication progress should increase with positive contact"
    );
}

#[test]
fn trust_decay_over_time() {
    let mut tie = SocialTie::new(0);
    tie.update_trust(20, 1);
    let trust_before = tie.trust;

    tie.decay(500);

    assert!(tie.trust <= trust_before);
}

#[test]
fn ties_are_symmetric_between_two_agents() {
    let mut network = SocialNetwork::new();
    network.record_cooperation(AgentId(3), AgentId(9), 1);
    network.record_conflict(AgentId(9), AgentId(3), 40, 2);
    let t1 = network.get_tie(AgentId(3), AgentId(9)).unwrap();
    let t2 = network.get_tie(AgentId(9), AgentId(3)).unwrap();
    assert_eq!(t1.interaction_count, 2);
    assert_eq!(t2.interaction_count, 2);
    assert_eq!(t1.trust, t2.trust);
    assert_eq!(network.statistics().total_ties, 1);
}

#[test]
fn unknown_tie_is_absent() {
    let network = SocialNetwork::new();
    assert!(network.get_tie(AgentId(1), AgentId(2)).is_none());
    assert_eq!(network.statistics().total_ties, 0);
}

#[test]
fn large_loss_drops_trust_by_the_scaled_penalty() {
    let mut tie = SocialTie::new(0);
    tie.trust = 50;
    tie.grievance = 30;
    // Penalty 100 * (100 + 30) / 100 = 130: trust falls from 50 to -80.
    tie.update_trust(-100, 5);
    assert_eq!(tie.trust, -80);
    assert_eq!(tie.grievance, 100);
    assert_eq!(tie.conflict_count, 1);
    assert_eq!(tie.interaction_count, 1);
    assert_eq!(tie.last_interaction_tick, 5);
}

#[test]
fn most_severe_loss_bottoms_out_trust() {
    let mut tie = SocialTie::new(0);
    tie.update_trust(-128, 1);
    assert_eq!(tie.trust, -100);
    assert_eq!(tie.grievance, 100);
}

#[test]
fn large_gain_at_full_distrust_caps_trust() {
    let mut tie = SocialTie::new(0);
    tie.trust = -100;
    // Increase 127 * 20 / 10 = 254, clamped at 100.
    tie.update_trust(127, 1);
    assert_eq!(tie.trust, 100);
    assert_eq!(tie.cooperation_success, 1);
}

#[test]
fn cooperation_gain_has_diminishing_returns() {
    let mut tie = SocialTie::new(0);
    tie.trust = 40;
    // Increase 10 * (10 - 4) / 10 = 6.
    tie.update_trust(10, 1);
    assert_eq!(tie.trust, 46);
    tie.trust = 95;
    // Increase 10 * (10 - 9) / 10 = 1.
    tie.update_trust(10, 2);
    assert_eq!(tie.trust, 96);
}

#[test]
fn decay_moves_trust_to_neutral_without_crossing() {
    let mut tie = SocialTie::new(0);
    tie.trust = 50;
    tie.grievance = 30;
    tie.decay(500);
    assert_eq!(tie.trust, 45);
    assert_eq!(tie.grievance, 28);

    let mut long = SocialTie::new(0);
    long.trust = 50;
    long.grievance = 100;
    long.decay(25_600);
    assert_eq!(long.trust, 0);
    assert_eq!(long.grievance, 0);

    let mut negative = SocialTie::new(0);
    negative.trust = -50;
    negative.decay(1_000);
    assert_eq!(negative.trust, -40);
    negative.decay(12_800);
    assert_eq!(negative.trust, 0);
}

#[test]
fn distrust_raises_the_cooperation_threshold() {
    let mut tie = SocialTie::new(0);
    tie.trust = -100;
    for seed in 0..50u64 {
        let mut rng = DeterministicRng::from_u64(seed);
        let mut probe = DeterministicRng::from_u64(seed);
        let draw = probe.next_bounded(100);
        // Threshold 50 - (-100 * 40 / 100) = 90.
        assert_eq!(tie.will_cooperate(&mut rng), draw > 90);
        assert_eq!(rng.next_u64(), probe.next_u64());
    }
    tie.trust = 100;
    for seed in 0..50u64 {
        let mut rng = DeterministicRng::from_u64(seed);
        let mut probe = DeterministicRng::from_u64(seed);
        let draw = probe.next_bounded(100);
        assert_eq!(tie.will_cooperate(&mut rng), draw > 10);
    }
}

#[test]
fn domestication_progress_weights_the_factors() {
    assert_eq!(CrossSpeciesState::wild().domestication_progress(), 24);
    assert_eq!(CrossSpeciesState::proto_domestic().domestication_progress(), 55);
    let mut tame = CrossSpeciesState::wild();
    tame.human_tolerance = 100;
    tame.fear = 0;
    tame.aggression = 0;
    tame.familiarity = 100;
    assert_eq!(tame.domestication_progress(), 117);
}

#[test]
fn long_absence_calms_animals_fully() {
    let mut state = CrossSpeciesState::wild();
    // 128_000 ticks: fear falls by 256, familiarity by 128, aggression by 160.
    state.update_from_human_contact(0, 200, 128_000);
    assert_eq!(state.fear, 0);
    assert_eq!(state.familiarity, 0);
    assert_eq!(state.aggression, 0);
    assert_eq!(state.last_human_contact, 128_000);
}
