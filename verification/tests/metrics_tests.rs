use polis::agents::{calculate_zoonotic_pressure, social_tension, AgentId, AgentPopulation, Corpse};
use polis::animals::SpeciesId;
use polis::knowledge::DiscoveryStage;
use polis::metrics::{
    discovery_metrics, partition_totals, DiscoveryMetrics, DiscoveryTransition, PartitionTally,
    PartitionTotals,
};

fn transition(tick: u64, agent_id: u64, knowledge_id: u64, new_stage: DiscoveryStage) -> DiscoveryTransition {
    DiscoveryTransition { tick, agent_id, knowledge_id, new_stage }
}

#[test]
fn discovery_metrics_without_transitions_are_zero() {
    assert_eq!(
        discovery_metrics(&[], 5),
        DiscoveryMetrics { discoveries_this_tick: 0, total_knowledge_items: 0, average_discovery_stage: 0 }
    );
}

#[test]
fn discovery_metrics_count_techniques_pairs_and_mean_stage() {
    let events = vec![
        transition(3, 1, 10, DiscoveryStage::AccidentalObservation),
        transition(4, 1, 10, DiscoveryStage::Technique),
        transition(5, 2, 10, DiscoveryStage::Technique),
        transition(5, 1, 10, DiscoveryStage::CodifiedKnowledge),
        transition(5, 2, 11, DiscoveryStage::ProcessSchema),
        transition(5, 3, 12, DiscoveryStage::InstitutionalizedPractice),
    ];
    let m = discovery_metrics(&events, 5);
    // One transition into Technique at tick 5.
    assert_eq!(m.discoveries_this_tick, 1);
    // Pairs at Technique or beyond: (1, 10), (2, 10), (3, 12).
    assert_eq!(m.total_knowledge_items, 3);
    // Ranks 1 + 4 + 4 + 5 + 3 + 6 = 23 over 6 transitions.
    assert_eq!(m.average_discovery_stage, 3);
    assert_eq!(discovery_metrics(&events, 4).discoveries_this_tick, 1);
    assert_eq!(discovery_metrics(&events, 9).discoveries_this_tick, 0);
}

fn tally(herbivores: u64, cohesion: u64, fear: u8) -> PartitionTally {
    PartitionTally {
        total_resources: 40,
        waste_quantity: -5,
        tameness_ppm: 500_000,
        demand: 7,
        cohesion,
        herbivore_population: herbivores,
        predator_population: 2,
        proto_domestic_population: 1,
        animal_familiarity: 10,
        animal_fear: fear,
        animal_human_tolerance: 30,
    }
}

#[test]
fn partition_totals_sum_and_average() {
    let mut parts = vec![tally(100, 40, 80), tally(50, 21, 61), tally(0, 0, 0)];
    parts[1].waste_quantity = 12;
    parts[2].total_resources = -3;
    parts[2].tameness_ppm = 0;
    assert_eq!(
        partition_totals(&parts),
        PartitionTotals {
            total_resource: 80,
            total_waste: 12,
            average_tameness_ppm: 333_333,
            total_herbivores: 150,
            total_predators: 6,
            total_proto_domestic: 3,
            total_demand: 21,
            average_cohesion: 20,
            average_animal_familiarity: 10,
            average_animal_fear: 47,
            average_animal_tolerance: 30,
        }
    );
}

#[test]
fn partition_totals_of_no_partitions_are_zero() {
    let t = partition_totals(&[]);
    assert_eq!(t.total_herbivores, 0);
    assert_eq!(t.average_cohesion, 0);
}

#[test]
fn partition_totals_wrap_around() {
    let parts = vec![tally(u64::MAX, u64::MAX, 0), tally(3, 3, 0)];
    let t = partition_totals(&parts);
    assert_eq!(t.total_herbivores, 2);
    assert_eq!(t.average_cohesion, 1);
}

#[test]
fn social_tension_averages_partition_tension() {
    let mut pop = AgentPopulation::new();
    pop.initialize(3, 1, 7);
    for a in pop.agents_mut().iter_mut() {
        a.partition_id = 0;
    }
    let ids: Vec<AgentId> = pop.agents().iter().map(|a| a.id).collect();
    assert_eq!(social_tension(&pop, 2), 0);
    // Cooperation gives trust 5: tension (100 - 5) + 0 = 95 in partition 0.
    pop.social_network.record_cooperation(ids[0], ids[1], 1);
    assert_eq!(social_tension(&pop, 1), 95);
    assert_eq!(social_tension(&pop, 2), 47);
    assert_eq!(social_tension(&pop, 0), 0);
    // A dead agent's ties no longer count.
    pop.agents_mut()[1].is_alive = false;
    assert_eq!(social_tension(&pop, 1), 0);
}

#[test]
fn zoonotic_pressure_squares_livestock_counts() {
    let mut pop = AgentPopulation::new();
    assert_eq!(calculate_zoonotic_pressure(&pop, 0), 0);
    for _ in 0..3 {
        pop.animal_population.spawn(SpeciesId(1), 0);
    }
    pop.animal_population.spawn(SpeciesId(1), 1);
    pop.animal_population.spawn(SpeciesId(1), 1);
    for a in pop.animal_population.animals_mut().iter_mut() {
        a.is_domesticated = true;
    }
    pop.animal_population.animals_mut()[4].is_alive = false;
    // (3 * 3 + 1 * 1) / 2.
    assert_eq!(calculate_zoonotic_pressure(&pop, 2), 5);
    // Partition 2 has no livestock: (9 + 1 + 0) / 3.
    assert_eq!(calculate_zoonotic_pressure(&pop, 3), 3);
    // An unprocessed corpse adds its disease risk of 20 to its partition.
    pop.corpses.push(Corpse::new(AgentId(9), 1, 0, 50));
    assert_eq!(calculate_zoonotic_pressure(&pop, 2), 15);
}
