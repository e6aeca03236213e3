use polis::compute::{reduce_sum_u64_cpu, ComputeBackend, ComputeConfig, ComputeEngine, ComputeModule};
use polis::inference::RiskType;
use polis::knowledge::{KnowledgeId, KnowledgeRegistry, KnowledgeType};
use polis::systems::{phase_partition_delta, registered_phases, SystemPhase, SystemsModule};
use polis::world::{validate_stock_ranges, ResourceKind, StockQuantities, StockRangeError, WorldModule, MAX_RESOURCE_VALUE};

#[test]
fn registry_order_is_stable() {
    assert_eq!(
        registered_phases(),
        &[SystemPhase::Perception, SystemPhase::Decision, SystemPhase::Commit]
    );
}

#[test]
fn partition_delta_is_deterministic() {
    let a = phase_partition_delta(42, 99, SystemPhase::Decision, 7);
    let b = phase_partition_delta(42, 99, SystemPhase::Decision, 7);
    assert_eq!(a, b);
}

#[test]
fn partition_delta_matches_the_mixing_formula() {
    fn mix(seed: u64, tick: u64, current: u64) -> u64 {
        let mut x = current ^ seed.rotate_left(13) ^ tick.rotate_right(7);
        x ^= x >> 33;
        x = x.wrapping_mul(0xff51_afd7_ed55_8ccd);
        x ^= x >> 33;
        x = x.wrapping_mul(0xc4ce_b9fe_1a85_ec53);
        x ^= x >> 33;
        x
    }
    let expected = mix(
        42 ^ 0xC3C3_C3C3_C3C3_C3C3,
        99 ^ 7u64.rotate_left(3),
        7u64.wrapping_mul(0x9E37_79B9_7F4A_7C15),
    );
    assert_eq!(phase_partition_delta(42, 99, SystemPhase::Decision, 7), expected);
    assert_ne!(
        phase_partition_delta(42, 99, SystemPhase::Decision, 7),
        phase_partition_delta(42, 99, SystemPhase::Commit, 7)
    );
}

#[test]
fn resource_kinds_have_regen_rates() {
    assert!(ResourceKind::Food.base_regen_rate() > 0);
    assert_eq!(ResourceKind::Waste.base_regen_rate(), 0);
    assert!(ResourceKind::Knowledge.base_regen_rate() == 0);
}

#[test]
fn carrying_capacity_multipliers() {
    assert_eq!(ResourceKind::Water.carrying_capacity_multiplier(), 1200);
    assert_eq!(ResourceKind::Knowledge.carrying_capacity_multiplier(), u64::MAX);
    assert_eq!(MAX_RESOURCE_VALUE, 100_000);
}

#[test]
fn module_names() {
    assert_eq!(SystemsModule::name(), "polis-systems");
    assert_eq!(WorldModule::name(), "polis-world");
    assert_eq!(ComputeModule::name(), "polis-compute");
    assert_eq!(RiskType::FamineCrisis.as_str(), "famine_crisis");
    assert_eq!(RiskType::ZoonoticSpillover.as_str(), "zoonotic_spillover");
}

#[test]
fn reduction_sums_with_wrapping() {
    let values = vec![1_u64, 2, 3, 10, 100, 1_000];
    let cpu_engine = ComputeEngine::new(ComputeConfig::default());
    let mut gpu_cfg = ComputeConfig::default();
    gpu_cfg.backend = ComputeBackend::GpuAccelerated;
    let gpu_engine = ComputeEngine::new(gpu_cfg);
    assert_eq!(cpu_engine.reduce_sum_u64(&values), (1_116, ComputeBackend::CpuReference));
    assert_eq!(gpu_engine.reduce_sum_u64(&values), (1_116, ComputeBackend::GpuAccelerated));
    assert_eq!(reduce_sum_u64_cpu(&[u64::MAX, 2]), 1);
    assert_eq!(reduce_sum_u64_cpu(&[]), 0);
    let cfg = ComputeConfig::default();
    assert_eq!(cfg.gpu_batch_threshold, 4_096);
    assert_eq!(cfg.tolerance_ppm, 10);
    assert!(cfg.deterministic_mode);
}

#[test]
fn knowledge_registry_assigns_ids_in_order() {
    let mut registry = KnowledgeRegistry::new();
    let basic = registry.register("Basic", KnowledgeType::Technique);
    let advanced = registry.register_with_config("Advanced", KnowledgeType::Technique, vec![basic], 50, 50, 5);
    assert_eq!(basic, KnowledgeId(1));
    assert_eq!(advanced, KnowledgeId(2));
    let k = registry.get(advanced).unwrap();
    assert_eq!(k.name, "Advanced");
    assert_eq!(k.prerequisites, vec![basic]);
    assert_eq!(registry.get(basic).unwrap().difficulty, 50);
    assert_eq!(registry.get(basic).unwrap().decay_rate, 5);
    assert!(registry.get(KnowledgeId(3)).is_none());
}

#[test]
fn default_catalog_has_its_items() {
    let mut registry = KnowledgeRegistry::new();
    registry.initialize_default_catalog();
    assert_eq!(registry.all().len(), 14);
    assert_eq!(registry.by_type(KnowledgeType::Technique).len(), 4);
    assert_eq!(registry.by_type(KnowledgeType::Ecological).len(), 3);
    let cooking = registry.get(KnowledgeId(6)).unwrap();
    assert_eq!(cooking.name, "Cooking");
    assert_eq!(cooking.prerequisites, vec![KnowledgeId(2)]);
    let advanced = registry.get(KnowledgeId(14)).unwrap();
    assert_eq!(advanced.name, "Advanced Toolmaking");
    assert_eq!(advanced.prerequisites, vec![KnowledgeId(1), KnowledgeId(4)]);
    let ids: Vec<u64> = registry.all().iter().map(|k| k.id.0).collect();
    assert_eq!(ids, (1..=14).collect::<Vec<u64>>());
}


use polis::agents::{AgentId, Individual};
use polis::sim_core::DeterministicRng;
use polis::systems::{agent_commit_phase, agent_decision_phase, agent_perception_phase, PartitionStocks};

fn stocks(food: i64, water: i64) -> PartitionStocks {
    PartitionStocks { food, water, waste: 0, demand: 0 }
}

#[test]
fn hungry_agent_moves_to_the_richer_neighbour() {
    let mut rng = DeterministicRng::from_u64(42);
    let mut agent = Individual::new(AgentId(1), 1, &mut rng);
    agent.hunger = 90;
    agent.thirst = 10;
    let partitions = vec![stocks(500, 500), stocks(10, 500), stocks(100, 500)];
    let mut agents = vec![agent];
    agent_perception_phase(&mut agents, &partitions, 1, 7);
    assert_eq!(agents[0].partition_id, 0);
}

#[test]
fn consumption_draws_down_stocks_and_deposits_waste() {
    let mut rng = DeterministicRng::from_u64(42);
    let mut agent = Individual::new(AgentId(1), 0, &mut rng);
    agent.metabolism = 100;
    agent.hunger = 50;
    agent.thirst = 50;
    let mut agents = vec![agent];
    let mut partitions = vec![stocks(1000, 1000)];
    let newborns = agent_decision_phase(&mut agents, &mut partitions, 1, 1);
    // Metabolism 100 takes 10 food and 12 water; waste grows by 22 / 4 = 5.
    assert_eq!(partitions[0].food, 990);
    assert_eq!(partitions[0].water, 988);
    assert_eq!(partitions[0].waste, 5);
    assert!(newborns.is_empty());
    assert_eq!(agents[0].hunger, 0);
}

#[test]
fn reproduction_respects_capacity_and_resources() {
    let mut rng = DeterministicRng::from_u64(42);
    let mut parent = Individual::new(AgentId(1), 0, &mut rng);
    parent.age = 2000;
    parent.reproduction_cooldown = 0;
    parent.health = 90;
    parent.hunger = 20;
    parent.thirst = 20;
    let mut agents = vec![parent, parent];
    let mut partitions = vec![stocks(5000, 5000)];
    let newborns = agent_decision_phase(&mut agents, &mut partitions, 1, 1);
    assert_eq!(newborns.len(), 2);
    assert_eq!(newborns[0], (0, parent.metabolism));
    assert_eq!(agents[0].reproduction_cooldown, 1000);
    let mut poor = vec![stocks(150, 5000)];
    let mut again = vec![parent];
    assert!(agent_decision_phase(&mut again, &mut poor, 1, 1).is_empty());
}

#[test]
fn commit_updates_needs_and_demand() {
    let mut rng = DeterministicRng::from_u64(42);
    let agent = Individual::new(AgentId(1), 0, &mut rng);
    let mut dead = Individual::new(AgentId(2), 0, &mut rng);
    dead.is_alive = false;
    let mut agents = vec![agent, dead];
    let mut partitions = vec![PartitionStocks { food: 0, water: 0, waste: 0, demand: 10_000 }];
    agent_commit_phase(&mut agents, &mut partitions);
    assert_eq!(agents[0].age, 1);
    assert_eq!(agents[1].age, 0);
    assert_eq!(partitions[0].demand, 10_000);
}

#[test]
fn consumption_never_drives_stocks_negative() {
    let mut rng = DeterministicRng::from_u64(11);
    let mut agents: Vec<Individual> = (0..6).map(|i| Individual::new(AgentId(i), 0, &mut rng)).collect();
    for a in agents.iter_mut() {
        a.hunger = 90;
        a.thirst = 90;
    }
    let mut partitions = vec![stocks(7, 3)];
    agent_decision_phase(&mut agents, &mut partitions, 1, 1);
    assert_eq!(partitions[0].food, 0);
    assert_eq!(partitions[0].water, 0);
}

#[test]
fn perception_changes_nothing_but_the_partition() {
    let mut rng = DeterministicRng::from_u64(3);
    let mut agent = Individual::new(AgentId(4), 0, &mut rng);
    agent.mobility = 100;
    agent.hunger = 99;
    let before = agent;
    let partitions = vec![stocks(0, 0), stocks(900, 900)];
    let mut agents = vec![agent];
    agent_perception_phase(&mut agents, &partitions, 2, 2);
    assert_eq!(agents[0].partition_id, 1);
    let mut moved_back = agents[0];
    moved_back.partition_id = before.partition_id;
    assert_eq!(moved_back, before);
}

fn uniform_stocks(v: i64) -> StockQuantities {
    StockQuantities { food: v, water: v, material: v, fuel: v, ore: v, waste: v }
}

#[test]
fn stock_ranges_accept_bounds() {
    assert_eq!(validate_stock_ranges(&uniform_stocks(0)), Ok(()));
    assert_eq!(validate_stock_ranges(&uniform_stocks(100_000)), Ok(()));
}

#[test]
fn stock_ranges_report_the_first_stock_out_of_range() {
    let mut q = uniform_stocks(10);
    q.fuel = -1;
    q.ore = 200_000;
    assert_eq!(validate_stock_ranges(&q), Err(StockRangeError::Negative(ResourceKind::Fuel, -1)));
    q.fuel = 5;
    assert_eq!(validate_stock_ranges(&q), Err(StockRangeError::ExceedsMax(ResourceKind::Ore, 200_000)));
    q.water = 100_001;
    assert_eq!(validate_stock_ranges(&q), Err(StockRangeError::ExceedsMax(ResourceKind::Water, 100_001)));
}
