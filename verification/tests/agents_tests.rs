use polis::agents::{AgentId, AgentPopulation, Corpse, Individual};
use polis::animals::SpeciesId;
use polis::sim_core::DeterministicRng;
use polis::systems::cleanup_dead_agents;

#[test]
fn agent_id_increments() {
    let mut id = AgentId(0);
    assert_eq!(id.next().0, 0);
    assert_eq!(id.next().0, 1);
    assert_eq!(id.next().0, 2);
}

#[test]
fn individual_creation() {
    let mut rng = DeterministicRng::from_u64(42);
    let agent = Individual::new(AgentId(1), 0, &mut rng);

    assert_eq!(agent.id.0, 1);
    assert_eq!(agent.partition_id, 0);
    assert!(agent.is_alive);
    assert!(agent.health > 0);
}

#[test]
fn needs_increase_over_time() {
    let mut rng = DeterministicRng::from_u64(42);
    let mut agent = Individual::new(AgentId(1), 0, &mut rng);
    let initial_hunger = agent.hunger;
    let initial_thirst = agent.thirst;

    agent.update_needs();

    assert!(agent.hunger >= initial_hunger);
    assert!(agent.thirst >= initial_thirst);
    assert_eq!(agent.age, 1);
}

#[test]
fn consumption_reduces_needs() {
    let mut rng = DeterministicRng::from_u64(42);
    let mut agent = Individual::new(AgentId(1), 0, &mut rng);
    agent.hunger = 50;
    agent.thirst = 50;

    let (food, water) = agent.consume(100, 100);

    assert!(food > 0);
    assert!(water > 0);
    assert!(agent.hunger < 50);
    assert!(agent.thirst < 50);
}

#[test]
fn lib_starvation_reduces_health() {
    let mut rng = DeterministicRng::from_u64(42);
    let mut agent = Individual::new(AgentId(1), 0, &mut rng);
    agent.hunger = 80;
    agent.thirst = 80;
    let initial_health = agent.health;

    agent.update_needs();

    assert!(agent.health < initial_health);
}

#[test]
fn lib_death_occurs_at_zero_health() {
    let mut rng = DeterministicRng::from_u64(42);
    let mut agent = Individual::new(AgentId(1), 0, &mut rng);
    agent.health = 1;
    agent.hunger = 100;

    agent.update_needs();

    assert!(!agent.is_alive);
}

#[test]
fn reproduction_requirements() {
    let mut rng = DeterministicRng::from_u64(42);
    let mut agent = Individual::new(AgentId(1), 0, &mut rng);

    assert!(!agent.can_reproduce());

    agent.age = 2000;
    agent.reproduction_cooldown = 0;
    agent.health = 80;
    agent.hunger = 20;
    agent.thirst = 20;

    assert!(agent.can_reproduce());
}

#[test]
fn population_initialization() {
    let mut population = AgentPopulation::new();
    population.initialize(100, 10, 42);

    assert_eq!(population.living_count(), 100);
    assert_eq!(population.agents().len(), 100);
}

#[test]
fn population_cleanup() {
    let mut population = AgentPopulation::new();
    population.initialize(10, 1, 42);

    for agent in population.agents_mut().iter_mut().take(5) {
        agent.is_alive = false;
    }

    assert_eq!(population.living_count(), 5);
    assert_eq!(population.agents().len(), 10);

    population.cleanup_dead();

    assert_eq!(population.living_count(), 5);
    assert_eq!(population.agents().len(), 5);
}

#[test]
fn newborn_inherits_metabolism() {
    let mut rng = DeterministicRng::from_u64(42);
    let parent = Individual::new(AgentId(1), 0, &mut rng);
    let parent_metabolism = parent.metabolism;

    let newborn = Individual::newborn(AgentId(2), 0, parent_metabolism, &mut rng);

    assert!((newborn.metabolism as i16 - parent_metabolism as i16).abs() <= 10);
}

#[test]
fn movement_based_on_needs() {
    let mut rng = DeterministicRng::from_u64(42);
    let mut agent = Individual::new(AgentId(1), 0, &mut rng);
    agent.mobility = 100;

    agent.hunger = 10;
    agent.thirst = 10;
    let wants_move_low_needs = agent.wants_to_move(1000, 1000);

    agent.hunger = 80;
    agent.thirst = 80;
    let wants_move_high_needs = agent.wants_to_move(10, 10);

    assert!(!wants_move_low_needs || wants_move_high_needs);
}

#[test]
fn corpse_lifecycle_creates_corpses() {
    let mut population = AgentPopulation::new();
    population.initialize(10, 1, 42);

    for agent in population.agents_mut().iter_mut().take(5) {
        agent.is_alive = false;
    }

    assert_eq!(population.living_count(), 5);
    assert_eq!(population.corpse_count(), 0);

    let corpses_created = population.process_dead_into_corpses(100);

    assert_eq!(corpses_created.len(), 5);
    assert_eq!(population.living_count(), 5);
    assert_eq!(population.corpse_count(), 5);
}

#[test]
fn corpse_produces_waste() {
    let mut population = AgentPopulation::new();
    population.initialize(5, 1, 42);

    population.agents_mut()[0].is_alive = false;

    population.process_dead_into_corpses(100);

    let waste_early = population.corpse_waste_in_partition(0, 100);
    let waste_later = population.corpse_waste_in_partition(0, 200);

    assert!(waste_later <= waste_early);
}

#[test]
fn corpse_disease_pressure_tracked() {
    let mut population = AgentPopulation::new();
    population.initialize(5, 1, 42);

    population.agents_mut()[0].is_alive = false;

    population.process_dead_into_corpses(100);

    let disease = population.corpse_disease_pressure(0);
    assert!(disease > 0);
}

#[test]
fn corpses_decompose_over_time() {
    let mut population = AgentPopulation::new();
    population.initialize(5, 1, 42);

    population.agents_mut()[0].is_alive = false;
    population.process_dead_into_corpses(100);

    let removed = population.cleanup_decomposed_corpses(601);

    assert_eq!(removed.len(), 1);
    assert_eq!(population.corpse_count(), 0);
}

#[test]
fn animal_population_tracked() {
    let mut population = AgentPopulation::new();

    population.animal_population.spawn(SpeciesId(1), 0);
    population.animal_population.spawn(SpeciesId(7), 0);

    assert_eq!(population.animal_population.living_count(), 2);
    assert_eq!(population.animal_statistics().total_animals, 2);
}

// The scenarios of the simulation's agent-dynamics suite that need only the
// agent layer.

#[test]
fn agent_dynamics_starvation_reduces_health() {
    let mut rng = DeterministicRng::from_u64(42);
    let mut agent = Individual::new(AgentId(1), 0, &mut rng);

    agent.hunger = 90;
    agent.thirst = 90;
    let initial_health = agent.health;

    agent.update_needs();

    assert!(agent.health < initial_health);
}

#[test]
fn well_fed_agents_recover_health() {
    let mut rng = DeterministicRng::from_u64(42);
    let mut agent = Individual::new(AgentId(1), 0, &mut rng);

    agent.health = 50;
    agent.hunger = 20;
    agent.thirst = 20;

    agent.consume(100, 100);

    assert!(agent.health > 50);
}

#[test]
fn agent_dynamics_death_occurs_at_zero_health() {
    let mut rng = DeterministicRng::from_u64(42);
    let mut agent = Individual::new(AgentId(1), 0, &mut rng);

    agent.health = 5;
    agent.hunger = 100;
    agent.thirst = 100;

    for _ in 0..10 {
        agent.update_needs();
        if !agent.is_alive {
            break;
        }
    }

    assert!(!agent.is_alive);
}

#[test]
fn starvation_recovery_cycle() {
    let mut rng = DeterministicRng::from_u64(42);
    let mut agent = Individual::new(AgentId(1), 0, &mut rng);

    agent.hunger = 85;
    agent.thirst = 85;
    let health_before_starvation = agent.health;

    agent.update_needs();
    let health_after_starvation = agent.health;

    assert!(health_after_starvation < health_before_starvation);

    agent.hunger = 10;
    agent.thirst = 10;
    agent.consume(100, 100);

    assert!(agent.health > health_after_starvation || agent.health >= 95);
}

#[test]
fn reproduction_increases_population() {
    let mut rng = DeterministicRng::from_u64(42);
    let mut population = AgentPopulation::new();

    let mut parent = Individual::new(AgentId(0), 0, &mut rng);
    parent.age = 2000;
    parent.reproduction_cooldown = 0;
    parent.health = 90;
    parent.hunger = 20;
    parent.thirst = 20;

    population.add_agent(parent);

    let initial_count = population.living_count();

    population.spawn_newborn(0, 100, 42);

    let final_count = population.living_count();

    assert!(final_count > initial_count);
}

#[test]
fn cleanup_removes_dead_agents() {
    let mut rng = DeterministicRng::from_u64(42);
    let mut population = AgentPopulation::new();

    for i in 0..5 {
        let agent = Individual::new(AgentId(i), 0, &mut rng);
        population.add_agent(agent);
    }

    for agent in population.agents_mut().iter_mut().take(3) {
        agent.is_alive = false;
    }

    let before_cleanup = population.agents().len();
    assert_eq!(before_cleanup, 5);

    cleanup_dead_agents(&mut population);

    let after_cleanup = population.agents().len();
    assert_eq!(after_cleanup, 2);
}

#[test]
fn population_statistics_are_accurate() {
    let mut rng = DeterministicRng::from_u64(42);
    let mut population = AgentPopulation::new();

    let mut agent1 = Individual::new(AgentId(0), 0, &mut rng);
    agent1.health = 80;
    agent1.hunger = 30;
    agent1.thirst = 30;
    agent1.age = 100;

    let mut agent2 = Individual::new(AgentId(1), 0, &mut rng);
    agent2.health = 60;
    agent2.hunger = 50;
    agent2.thirst = 50;
    agent2.age = 200;

    population.add_agent(agent1);
    population.add_agent(agent2);

    let stats = population.statistics();

    assert_eq!(stats.total_population, 2);
    assert_eq!(stats.average_health, 70);
    assert_eq!(stats.average_hunger, 40);
    assert_eq!(stats.average_thirst, 40);
    assert_eq!(stats.average_age, 150);
}

#[test]
fn agent_metabolism_affects_consumption() {
    let mut rng = DeterministicRng::from_u64(42);

    let mut fast_metabolism = Individual::new(AgentId(0), 0, &mut rng);
    fast_metabolism.metabolism = 120;
    fast_metabolism.hunger = 50;
    fast_metabolism.thirst = 50;

    let mut slow_metabolism = Individual::new(AgentId(1), 0, &mut rng);
    slow_metabolism.metabolism = 60;
    slow_metabolism.hunger = 50;
    slow_metabolism.thirst = 50;

    let (food1, _water1) = fast_metabolism.consume(1000, 1000);
    let (food2, _water2) = slow_metabolism.consume(1000, 1000);

    assert!(food1 >= food2);
}

// Further cases of the agent layer.

#[test]
fn dead_agents_become_corpses_in_order() {
    let mut population = AgentPopulation::new();
    population.initialize(6, 3, 7);
    let ids: Vec<u64> = population.agents().iter().map(|a| a.id.0).collect();
    assert_eq!(ids, vec![0, 1, 2, 3, 4, 5]);
    population.agents_mut()[1].is_alive = false;
    population.agents_mut()[4].is_alive = false;
    let corpses = population.process_dead_into_corpses(10);
    let corpse_ids: Vec<u64> = corpses.iter().map(|c| c.agent_id.0).collect();
    assert_eq!(corpse_ids, vec![1, 4]);
    let kept: Vec<u64> = population.agents().iter().map(|a| a.id.0).collect();
    assert_eq!(kept, vec![0, 2, 3, 5]);
    assert_eq!(population.agents().len() + corpses.len(), 6);
    assert_eq!(corpses[0].tick_created, 10);
}

#[test]
fn corpse_biomass_has_a_floor_of_one_hundred() {
    let c = Corpse::new(AgentId(3), 2, 50, 0);
    assert_eq!(c.biomass, 100);
    assert_eq!(c.disease_risk, 20);
    assert!(!c.is_processed);
    let d = Corpse::new(AgentId(3), 2, 50, 30);
    assert_eq!(d.biomass, 300);
}

#[test]
fn corpse_waste_shrinks_after_one_hundred_ticks() {
    let c = Corpse::new(AgentId(1), 0, 0, 50);
    assert_eq!(c.decomposition_waste(100), 500);
    assert_eq!(c.decomposition_waste(300), 470);
    assert_eq!(c.decomposition_waste(1_000_000), 10);
    assert!(!c.is_fully_decomposed(500));
    assert!(c.is_fully_decomposed(501));
}

#[test]
fn spawned_newborns_take_consecutive_ids() {
    let mut population = AgentPopulation::new();
    let a = population.spawn_newborn(0, 100, 1);
    let b = population.spawn_newborn(0, 100, 2);
    assert_eq!(a.id.0, 0);
    assert_eq!(b.id.0, 1);
    assert_eq!(population.agents().len(), 2);
    assert!(a.metabolism >= 95 && a.metabolism <= 104);
}

#[test]
fn digest_is_deterministic_and_tracks_state() {
    let mut a = AgentPopulation::new();
    let mut b = AgentPopulation::new();
    a.initialize(20, 4, 99);
    b.initialize(20, 4, 99);
    assert_eq!(a.digest(), b.digest());
    b.agents_mut()[3].hunger = b.agents_mut()[3].hunger.wrapping_add(1);
    assert_ne!(a.digest(), b.digest());
}

#[test]
fn living_in_partition_counts_only_living_there() {
    let mut population = AgentPopulation::new();
    population.initialize(30, 3, 5);
    let mut total = 0;
    for p in 0..3 {
        total += population.living_in_partition(p);
        assert_eq!(population.agents_in_partition(p).len(), population.living_in_partition(p));
    }
    assert_eq!(total, 30);
    population.agents_mut()[0].is_alive = false;
    let p0 = population.agents()[0].partition_id;
    assert_eq!(population.living_in_partition(p0) + 1, population.agents_in_partition(p0).len());
}
