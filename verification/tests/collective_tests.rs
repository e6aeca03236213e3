use polis::agents::{AgentId, Individual};
use polis::collective::{
    CollectiveActor, CollectiveId, CollectiveLifecycleState, CollectiveRegistry, CollectiveType,
    DecisionProcedure, PromotionCriteria, Proposal, ProposalType, ResourceType, Role,
};
use polis::sim_core::DeterministicRng;

#[test]
fn collective_lifecycle_transition() {
    let mut collective = CollectiveActor::new(
        CollectiveId(1),
        CollectiveType::StableGroup,
        0,
        DecisionProcedure::MajorityVote,
    );

    assert_eq!(collective.lifecycle_state, CollectiveLifecycleState::ProtoGroup);

    for i in 1..=5 {
        collective.add_member(AgentId(i), 0);
        if let Some(m) = collective.members.get_mut(&AgentId(i)) {
            m.compliance_propensity = 100;
            m.influence_weight = 10;
        }
    }

    collective.legitimacy = 70;
    collective.external_recognition = 70;
    collective.pooled_resources.insert(ResourceType::Food, 100);
    collective.resource_centralization = 70;

    let proposal = Proposal {
        proposal_type: ProposalType::ResourceAllocation,
        description: "Test".to_string(),
    };
    let mut rng = DeterministicRng::from_u64(42);
    let outcome = collective.make_decision(&proposal, &mut rng);

    let criteria = collective.calculate_promotion_criteria();
    println!(
        "Criteria: boundary={}, membership={}, shared={}, decision={}, external={}",
        criteria.boundary_clarity,
        criteria.membership_rules,
        criteria.shared_resources,
        criteria.decision_procedure,
        criteria.external_capacity
    );
    println!("Decision outcome: passed={}, compliance={}", outcome.passed, outcome.compliance_level);
    println!("Successful decisions: {}", collective.successful_decisions);

    assert!(
        collective.attempt_lifecycle_transition(10),
        "Failed to transition. Criteria overall: {}",
        criteria.overall_score()
    );
    assert_eq!(collective.lifecycle_state, CollectiveLifecycleState::UnstableCollective);
}

#[test]
fn collective_promotion_criteria() {
    let mut collective = CollectiveActor::new(
        CollectiveId(1),
        CollectiveType::StableGroup,
        0,
        DecisionProcedure::MajorityVote,
    );

    let criteria = collective.calculate_promotion_criteria();
    assert!(!criteria.meets_threshold());

    for i in 1..=5 {
        collective.add_member(AgentId(i), 0);
        if let Some(m) = collective.members.get_mut(&AgentId(i)) {
            m.compliance_propensity = 100;
            m.influence_weight = 10;
        }
    }

    collective.legitimacy = 70;
    collective.external_recognition = 70;
    collective.pooled_resources.insert(ResourceType::Food, 100);
    collective.resource_centralization = 70;

    let proposal = Proposal {
        proposal_type: ProposalType::ResourceAllocation,
        description: "Test".to_string(),
    };
    let mut rng = DeterministicRng::from_u64(42);
    collective.make_decision(&proposal, &mut rng);

    let criteria = collective.calculate_promotion_criteria();
    assert!(criteria.meets_threshold());
}

#[test]
fn collective_merge() {
    let mut registry = CollectiveRegistry::new();

    let id1 = registry.create_collective(CollectiveType::StableGroup, 0, DecisionProcedure::MajorityVote);
    let id2 = registry.create_collective(CollectiveType::StableGroup, 0, DecisionProcedure::MajorityVote);

    if let Some(c1) = registry.get_mut(id1) {
        for i in 1..=3 {
            c1.add_member(AgentId(i), 0);
        }
        c1.pooled_resources.insert(ResourceType::Food, 100);
    }

    if let Some(c2) = registry.get_mut(id2) {
        for i in 4..=6 {
            c2.add_member(AgentId(i), 0);
        }
        c2.pooled_resources.insert(ResourceType::Food, 50);
    }

    let merged = registry.merge_collectives(id1, id2, 10);
    assert_eq!(merged, Some(id1));

    let c1 = registry.get(id1).unwrap();
    assert_eq!(c1.member_count(), 6);
    assert_eq!(c1.pooled_resources.get(&ResourceType::Food), Some(&150));
}

#[test]
fn collective_split() {
    let mut registry = CollectiveRegistry::new();

    let id = registry.create_collective(CollectiveType::StableGroup, 0, DecisionProcedure::MajorityVote);

    if let Some(c) = registry.get_mut(id) {
        for i in 1..=6 {
            c.add_member(AgentId(i), 0);
        }
        c.pooled_resources.insert(ResourceType::Food, 100);
    }

    let new_id = registry.split_collective(id, vec![AgentId(1), AgentId(2), AgentId(3)], 10);
    assert!(new_id.is_some());

    let original = registry.get(id).unwrap();
    let new_collective = registry.get(new_id.unwrap()).unwrap();

    assert_eq!(original.member_count(), 3);
    assert_eq!(new_collective.member_count(), 3);
}

#[test]
fn decision_procedure_majority() {
    let mut collective = CollectiveActor::new(
        CollectiveId(1),
        CollectiveType::CollectiveActor,
        0,
        DecisionProcedure::MajorityVote,
    );

    for i in 1..=5 {
        collective.add_member(AgentId(i), 0);
        if let Some(m) = collective.members.get_mut(&AgentId(i)) {
            m.compliance_propensity = 100;
            m.influence_weight = 10;
        }
    }

    collective.legitimacy = 100;

    let proposal = Proposal {
        proposal_type: ProposalType::ResourceAllocation,
        description: "Test proposal".to_string(),
    };

    let mut rng = DeterministicRng::from_u64(42);
    let outcome = collective.make_decision(&proposal, &mut rng);

    assert!(outcome.passed);
    assert!(outcome.compliance_level > 50);
}

#[test]
fn downward_causation_preserves_agency() {
    let mut collective = CollectiveActor::new(
        CollectiveId(1),
        CollectiveType::CollectiveActor,
        0,
        DecisionProcedure::MajorityVote,
    );

    collective.add_member(AgentId(1), 0);
    collective.legitimacy = 80;

    if let Some(m) = collective.members.get_mut(&AgentId(1)) {
        m.compliance_propensity = 50;
        m.dissent_level = 0;
    }

    let mut rng = DeterministicRng::from_u64(42);
    let mut individual = Individual::new(AgentId(1), 0, &mut rng);
    let original_health = individual.health;

    let mut rng2 = DeterministicRng::from_u64(42);

    collective.apply_downward_causation(&mut individual, &mut rng2);

    assert_eq!(individual.health, original_health);
}

// Further cases.

#[test]
fn split_shares_resources_in_proportion() {
    let mut registry = CollectiveRegistry::new();
    let id = registry.create_collective(CollectiveType::StableGroup, 0, DecisionProcedure::Consensus);
    if let Some(c) = registry.get_mut(id) {
        for i in 1..=8 {
            c.add_member(AgentId(i), 0);
        }
        c.pooled_resources.insert(ResourceType::Food, 100);
        c.pooled_resources.insert(ResourceType::Material, 7);
        c.legitimacy = 50;
    }
    let new_id = registry
        .split_collective(id, vec![AgentId(1), AgentId(2), AgentId(3)], 4)
        .unwrap();
    assert_eq!(new_id, CollectiveId(2));
    let original = registry.get(id).unwrap();
    let split_off = registry.get(new_id).unwrap();
    // 3 of 8 members leave: floor(100 * 3 / 8) = 37, floor(7 * 3 / 8) = 2.
    assert_eq!(split_off.pooled_resources.get(&ResourceType::Food), Some(&37));
    assert_eq!(original.pooled_resources.get(&ResourceType::Food), Some(&63));
    assert_eq!(split_off.pooled_resources.get(&ResourceType::Material), Some(&2));
    assert_eq!(original.pooled_resources.get(&ResourceType::Material), Some(&5));
    assert_eq!(original.legitimacy, 30);
    assert_eq!(split_off.legitimacy, 30);
    assert_eq!(split_off.formed_tick, 4);
    assert!(split_off.is_member(AgentId(2)));
    assert!(!original.is_member(AgentId(2)));
}

#[test]
fn split_is_refused_for_outsiders_and_small_sides() {
    let mut registry = CollectiveRegistry::new();
    let id = registry.create_collective(CollectiveType::StableGroup, 0, DecisionProcedure::MajorityVote);
    if let Some(c) = registry.get_mut(id) {
        for i in 1..=5 {
            c.add_member(AgentId(i), 0);
        }
    }
    assert_eq!(registry.split_collective(id, vec![AgentId(1), AgentId(2), AgentId(99)], 1), None);
    assert_eq!(registry.split_collective(id, vec![AgentId(1), AgentId(2), AgentId(3)], 1), None);
    assert_eq!(registry.split_collective(CollectiveId(77), vec![AgentId(1), AgentId(2), AgentId(3)], 1), None);
    assert_eq!(registry.get(id).unwrap().member_count(), 5);
}

#[test]
fn merge_with_missing_primary_drops_secondary() {
    let mut registry = CollectiveRegistry::new();
    let id = registry.create_collective(CollectiveType::StableGroup, 0, DecisionProcedure::MajorityVote);
    assert_eq!(registry.merge_collectives(CollectiveId(50), id, 3), None);
    assert!(registry.get(id).is_none());
}

#[test]
fn merge_averages_legitimacy_and_raises_factionalism() {
    let mut registry = CollectiveRegistry::new();
    let a = registry.create_collective(CollectiveType::StableGroup, 0, DecisionProcedure::MajorityVote);
    let b = registry.create_collective(CollectiveType::StableGroup, 0, DecisionProcedure::MajorityVote);
    registry.get_mut(a).unwrap().legitimacy = 80;
    registry.get_mut(b).unwrap().legitimacy = 40;
    registry.get_mut(a).unwrap().factionalism = 10;
    registry.get_mut(b).unwrap().factionalism = 30;
    registry.get_mut(a).unwrap().add_member(AgentId(1), 0);
    registry.get_mut(b).unwrap().add_member(AgentId(1), 5);
    registry.get_mut(b).unwrap().add_member(AgentId(2), 5);
    assert_eq!(registry.merge_collectives(a, b, 9), Some(a));
    let c = registry.get(a).unwrap();
    assert_eq!(c.legitimacy, 50);
    assert_eq!(c.factionalism, 40);
    assert_eq!(c.member_count(), 2);
    assert_eq!(c.members.get(&AgentId(1)).unwrap().joined_tick, 0);
    assert_eq!(c.members.get(&AgentId(2)).unwrap().joined_tick, 9);
}

#[test]
fn inequality_is_twice_the_standard_deviation() {
    let mut c = CollectiveActor::new(CollectiveId(1), CollectiveType::StableGroup, 0, DecisionProcedure::MajorityVote);
    c.add_member(AgentId(1), 0);
    assert_eq!(c.internal_inequality, 0);
    c.add_member(AgentId(2), 0);
    assert_eq!(c.internal_inequality, 0);
    c.members.get_mut(&AgentId(2)).unwrap().influence_weight = 30;
    // Weights 10 and 30: mean 20, variance 100, twice the deviation is 20.
    c.add_member(AgentId(1), 0);
    assert_eq!(c.internal_inequality, 20);
    c.remove_member(AgentId(2));
    assert_eq!(c.internal_inequality, 0);
}

#[test]
fn lifecycle_steps_follow_the_state_rules() {
    let mut c = CollectiveActor::new(CollectiveId(1), CollectiveType::StableGroup, 0, DecisionProcedure::MajorityVote);
    c.lifecycle_state = CollectiveLifecycleState::StabilizedCollective;
    c.legitimacy = 35;
    assert!(c.attempt_lifecycle_transition(3));
    assert_eq!(c.lifecycle_state, CollectiveLifecycleState::FragmentingCollective);
    assert_eq!(c.last_transition_tick, 3);
    assert!(c.attempt_lifecycle_transition(4));
    assert_eq!(c.lifecycle_state, CollectiveLifecycleState::Dissolved);
    assert!(!c.attempt_lifecycle_transition(5));
    assert_eq!(c.last_transition_tick, 4);
}

#[test]
fn elite_constitution_follows_elite_compliance() {
    let mut c = CollectiveActor::new(CollectiveId(1), CollectiveType::PolityActor, 0, DecisionProcedure::OligarchicDominance);
    c.add_member(AgentId(1), 0);
    c.add_member(AgentId(2), 0);
    c.members.get_mut(&AgentId(1)).unwrap().role = Role::Elder;
    c.members.get_mut(&AgentId(1)).unwrap().compliance_propensity = 90;
    let proposal = Proposal { proposal_type: ProposalType::ExternalAction, description: String::new() };
    let mut rng = DeterministicRng::from_u64(3);
    assert!(c.make_decision(&proposal, &mut rng).passed);
    c.members.get_mut(&AgentId(1)).unwrap().compliance_propensity = 10;
    assert!(!c.make_decision(&proposal, &mut rng).passed);
}

#[test]
fn registry_statistics_average_the_active() {
    let mut registry = CollectiveRegistry::new();
    let a = registry.create_collective(CollectiveType::StableGroup, 0, DecisionProcedure::MajorityVote);
    let b = registry.create_collective(CollectiveType::StableGroup, 0, DecisionProcedure::MajorityVote);
    let d = registry.create_collective(CollectiveType::StableGroup, 0, DecisionProcedure::MajorityVote);
    registry.get_mut(a).unwrap().add_member(AgentId(1), 0);
    registry.get_mut(b).unwrap().add_member(AgentId(1), 0);
    registry.get_mut(b).unwrap().add_member(AgentId(2), 0);
    registry.get_mut(b).unwrap().legitimacy = 70;
    registry.get_mut(d).unwrap().lifecycle_state = CollectiveLifecycleState::Dissolved;
    let st = registry.statistics();
    assert_eq!(st.total_collectives, 2);
    assert_eq!(st.total_members, 3);
    assert_eq!(st.average_size, 1);
    assert_eq!(st.average_legitimacy, 60);
    assert_eq!(registry.collectives_for_agent(AgentId(1)), vec![a, b]);
    assert_eq!(registry.active_collectives().len(), 2);
}

#[test]
fn created_and_split_collectives_get_distinct_ids() {
    let mut registry = CollectiveRegistry::new();
    let a = registry.create_collective(CollectiveType::StableGroup, 0, DecisionProcedure::MajorityVote);
    let b = registry.create_collective(CollectiveType::HouseholdActor, 0, DecisionProcedure::Consensus);
    if let Some(c) = registry.get_mut(a) {
        for i in 1..=6 {
            c.add_member(AgentId(i), 0);
        }
    }
    let s = registry.split_collective(a, vec![AgentId(4), AgentId(5), AgentId(6)], 1).unwrap();
    registry.remove(b);
    let c = registry.create_collective(CollectiveType::StableGroup, 2, DecisionProcedure::MajorityVote);
    let mut ids: Vec<u64> = registry.all().iter().map(|(key, _)| key.0).collect();
    ids.sort();
    ids.dedup();
    assert_eq!(ids.len(), registry.all().len());
    assert_eq!((a.0, b.0, s.0, c.0), (1, 2, 3, 4));
    assert_eq!(registry.by_type(CollectiveType::StableGroup).len(), 3);
}

#[test]
fn overall_score_is_the_mean_of_the_criteria() {
    let even = PromotionCriteria {
        boundary_clarity: 60,
        membership_rules: 60,
        shared_resources: 60,
        decision_procedure: 60,
        external_capacity: 60,
    };
    assert_eq!(even.overall_score(), 60);
    let mixed = PromotionCriteria {
        boundary_clarity: 100,
        membership_rules: 90,
        shared_resources: 20,
        decision_procedure: 80,
        external_capacity: 14,
    };
    assert_eq!(mixed.overall_score(), 60);
    let full = PromotionCriteria {
        boundary_clarity: 255,
        membership_rules: 255,
        shared_resources: 255,
        decision_procedure: 255,
        external_capacity: 255,
    };
    assert_eq!(full.overall_score(), 255);
}

#[test]
fn boundary_clarity_counts_every_decision_and_member() {
    let mut c = CollectiveActor::new(CollectiveId(1), CollectiveType::StableGroup, 0, DecisionProcedure::MajorityVote);
    for i in 1..=3 {
        c.add_member(AgentId(i), 0);
    }
    // 50 + 3 * 4 + 0.
    assert_eq!(c.calculate_promotion_criteria().boundary_clarity, 62);
    c.successful_decisions = 1;
    assert_eq!(c.calculate_promotion_criteria().boundary_clarity, 72);
    c.successful_decisions = 256;
    assert_eq!(c.calculate_promotion_criteria().boundary_clarity, 82);
    for i in 4..=260 {
        c.add_member(AgentId(i), 0);
    }
    // 50 + 40 + 20, capped at 100; size bonus 40 on membership rules.
    let criteria = c.calculate_promotion_criteria();
    assert_eq!(criteria.boundary_clarity, 100);
    assert_eq!(criteria.membership_rules, 80);
}

#[test]
fn shared_resources_average_centralization_and_pool() {
    let mut c = CollectiveActor::new(CollectiveId(1), CollectiveType::StableGroup, 0, DecisionProcedure::MajorityVote);
    assert_eq!(c.calculate_promotion_criteria().shared_resources, 20);
    c.pooled_resources.insert(ResourceType::Food, 500);
    c.resource_centralization = 200;
    // (200 + min(500, 100)) / 2.
    assert_eq!(c.calculate_promotion_criteria().shared_resources, 150);
}

#[test]
fn merge_criteria_are_symmetric() {
    let mut a = CollectiveActor::new(CollectiveId(1), CollectiveType::StableGroup, 0, DecisionProcedure::MajorityVote);
    let mut b = CollectiveActor::new(CollectiveId(2), CollectiveType::StableGroup, 0, DecisionProcedure::Consensus);
    a.add_member(AgentId(1), 0);
    a.add_member(AgentId(2), 0);
    b.add_member(AgentId(3), 0);
    a.resource_centralization = 70;
    b.resource_centralization = 20;
    a.factionalism = 8;
    b.factionalism = 4;
    let ab = a.can_merge_with(&b);
    let ba = b.can_merge_with(&a);
    assert_eq!(ab, ba);
    assert_eq!(ab.compatible_institutions, 60);
    assert_eq!(ab.coordination_benefit, 0);
    assert_eq!(ab.manageable_factional_distance, 50);
    assert_eq!(ab.asset_integration_possible, 50);
    b.add_member(AgentId(2), 0);
    b.constitution = DecisionProcedure::MajorityVote;
    let ab = a.can_merge_with(&b);
    assert_eq!(ab, b.can_merge_with(&a));
    assert_eq!(ab.compatible_institutions, 80);
    assert_eq!(ab.coordination_benefit, 1);
    assert_eq!(ab.manageable_factional_distance, 70);
}

#[test]
fn merge_coordination_counts_every_member() {
    let mut a = CollectiveActor::new(CollectiveId(1), CollectiveType::StableGroup, 0, DecisionProcedure::MajorityVote);
    let mut b = CollectiveActor::new(CollectiveId(2), CollectiveType::StableGroup, 0, DecisionProcedure::MajorityVote);
    for i in 0..130 {
        a.add_member(AgentId(i), 0);
        b.add_member(AgentId(1000 + i), 0);
    }
    assert_eq!(a.can_merge_with(&b).coordination_benefit, 50);
}

#[test]
fn dissolved_collective_never_moves() {
    let mut c = CollectiveActor::new(CollectiveId(1), CollectiveType::StableGroup, 0, DecisionProcedure::MajorityVote);
    c.lifecycle_state = CollectiveLifecycleState::Dissolved;
    c.legitimacy = 90;
    c.last_transition_tick = 7;
    assert!(!c.attempt_lifecycle_transition(20));
    assert_eq!(c.lifecycle_state, CollectiveLifecycleState::Dissolved);
    assert_eq!(c.last_transition_tick, 7);
}

#[test]
fn fragmenting_collective_can_restabilize() {
    let mut c = CollectiveActor::new(CollectiveId(1), CollectiveType::StableGroup, 0, DecisionProcedure::MajorityVote);
    for i in 1..=3 {
        c.add_member(AgentId(i), 0);
    }
    c.lifecycle_state = CollectiveLifecycleState::FragmentingCollective;
    c.legitimacy = 60;
    c.factionalism = 10;
    assert!(c.attempt_lifecycle_transition(11));
    assert_eq!(c.lifecycle_state, CollectiveLifecycleState::StabilizedCollective);
    assert_eq!(c.last_transition_tick, 11);
    // Stabilized with legitimacy 60 and factionalism 10: no rule applies.
    assert!(!c.attempt_lifecycle_transition(12));
    assert_eq!(c.last_transition_tick, 11);
}

#[test]
fn merge_sums_legitimacy_in_eight_bits() {
    let mut registry = CollectiveRegistry::new();
    let a = registry.create_collective(CollectiveType::StableGroup, 0, DecisionProcedure::MajorityVote);
    let b = registry.create_collective(CollectiveType::StableGroup, 0, DecisionProcedure::MajorityVote);
    registry.get_mut(a).unwrap().legitimacy = 200;
    registry.get_mut(b).unwrap().legitimacy = 200;
    assert_eq!(registry.merge_collectives(a, b, 1), Some(a));
    // 200 + 200 wraps to 144 in eight bits: 144 / 2 - 10.
    assert_eq!(registry.get(a).unwrap().legitimacy, 62);
}

#[test]
fn registry_statistics_take_the_true_mean() {
    let mut registry = CollectiveRegistry::new();
    for _ in 0..3 {
        let id = registry.create_collective(CollectiveType::StableGroup, 0, DecisionProcedure::MajorityVote);
        registry.get_mut(id).unwrap().legitimacy = 100;
        registry.get_mut(id).unwrap().factionalism = 91;
    }
    let st = registry.statistics();
    assert_eq!(st.total_collectives, 3);
    assert_eq!(st.average_legitimacy, 100);
    assert_eq!(st.average_factionalism, 91);
}

#[test]
fn registry_finds_collectives_by_key_not_by_field() {
    let mut registry = CollectiveRegistry::new();
    let a = registry.create_collective(CollectiveType::StableGroup, 0, DecisionProcedure::MajorityVote);
    let b = registry.create_collective(CollectiveType::StableGroup, 0, DecisionProcedure::MajorityVote);
    registry.get_mut(a).unwrap().id = b;
    registry.get_mut(b).unwrap().legitimacy = 77;
    assert_eq!(registry.get(a).unwrap().id, b);
    assert_eq!(registry.get(b).unwrap().legitimacy, 77);
    assert_eq!(registry.merge_collectives(a, b, 4), Some(a));
    assert!(registry.get(b).is_none());
    assert!(registry.get(a).is_some());
    assert_eq!(registry.all().len(), 1);
    assert_eq!(registry.all()[0].0, a);
}

#[test]
fn removing_a_key_takes_out_every_entry_under_it() {
    let mut registry = CollectiveRegistry::new();
    let a = registry.create_collective(CollectiveType::StableGroup, 0, DecisionProcedure::MajorityVote);
    let b = registry.create_collective(CollectiveType::StableGroup, 0, DecisionProcedure::Consensus);
    let c = registry.create_collective(CollectiveType::StableGroup, 0, DecisionProcedure::MajorityVote);
    registry.all_mut()[0].0 = b;
    let first = registry.remove(b).unwrap();
    assert_eq!(first.id, a);
    assert!(registry.get(b).is_none());
    assert_eq!(registry.all().len(), 1);
    assert_eq!(registry.all()[0].0, c);
    assert!(registry.remove(b).is_none());
}

#[test]
fn lifecycle_transitions_report_keys() {
    let mut registry = CollectiveRegistry::new();
    let a = registry.create_collective(CollectiveType::StableGroup, 0, DecisionProcedure::MajorityVote);
    registry.get_mut(a).unwrap().lifecycle_state = CollectiveLifecycleState::StabilizedCollective;
    registry.get_mut(a).unwrap().legitimacy = 10;
    registry.get_mut(a).unwrap().id = CollectiveId(99);
    let moved = registry.update_lifecycle_states(5);
    assert_eq!(moved, vec![(a, CollectiveLifecycleState::StabilizedCollective)]);
    assert_eq!(registry.get(a).unwrap().lifecycle_state, CollectiveLifecycleState::FragmentingCollective);
}

#[test]
fn unstable_collective_stabilizes_with_huge_counts() {
    let mut c = CollectiveActor::new(CollectiveId(1), CollectiveType::StableGroup, 0, DecisionProcedure::MajorityVote);
    c.lifecycle_state = CollectiveLifecycleState::UnstableCollective;
    c.legitimacy = 70;
    c.failed_decisions = u64::MAX / 2 + 1;
    c.successful_decisions = u64::MAX;
    // Twice the failures (2^64) is above the successes, and the successes
    // are above the failures: no rule applies.
    assert!(!c.attempt_lifecycle_transition(3));
    c.failed_decisions = u64::MAX / 2 - 1;
    assert!(c.attempt_lifecycle_transition(4));
    assert_eq!(c.lifecycle_state, CollectiveLifecycleState::StabilizedCollective);
}
