use polis::knowledge::{AgentKnowledge, DiscoveryProgress, DiscoveryStage, KnowledgeId, KnowledgeRegistry, KnowledgeType};

#[test]
fn agent_learns_knowledge() {
    let mut agent_knowledge = AgentKnowledge::new();
    let knowledge_id = KnowledgeId(1);

    assert!(!agent_knowledge.knows(knowledge_id));

    agent_knowledge.learn(knowledge_id, 0);

    assert!(agent_knowledge.knows(knowledge_id));
    assert_eq!(agent_knowledge.proficiency(knowledge_id), 10);
}

#[test]
fn proficiency_improves_with_practice() {
    let mut agent_knowledge = AgentKnowledge::new();
    let knowledge_id = KnowledgeId(1);

    agent_knowledge.learn(knowledge_id, 0);
    agent_knowledge.practice(knowledge_id, 1);
    agent_knowledge.practice(knowledge_id, 2);

    assert_eq!(agent_knowledge.proficiency(knowledge_id), 12);
}

#[test]
fn knowledge_registry_prerequisites() {
    let mut registry = KnowledgeRegistry::new();

    let basic = registry.register("Basic", KnowledgeType::Technique);
    let advanced = registry.register_with_config("Advanced", KnowledgeType::Technique, vec![basic], 50, 50, 5);

    let mut agent_knowledge = AgentKnowledge::new();

    assert!(!registry.prerequisites_met(advanced, &agent_knowledge));

    agent_knowledge.learn(basic, 0);

    assert!(registry.prerequisites_met(advanced, &agent_knowledge));
}

#[test]
fn discoverable_knowledge() {
    let mut registry = KnowledgeRegistry::new();

    let basic = registry.register("Basic", KnowledgeType::Technique);
    let advanced = registry.register_with_config("Advanced", KnowledgeType::Technique, vec![basic], 50, 50, 5);

    let mut agent_knowledge = AgentKnowledge::new();

    let discoverable = registry.discoverable_for(&agent_knowledge);
    assert!(discoverable.contains(&basic));
    assert!(!discoverable.contains(&advanced));

    agent_knowledge.learn(basic, 0);

    let discoverable = registry.discoverable_for(&agent_knowledge);
    assert!(discoverable.contains(&advanced));
}

#[test]
fn knowledge_decay() {
    let mut agent_knowledge = AgentKnowledge::new();
    let knowledge_id = KnowledgeId(1);

    agent_knowledge.learn(knowledge_id, 0);
    agent_knowledge.practice(knowledge_id, 0);

    agent_knowledge.apply_decay(1500, 10);

    assert!(agent_knowledge.proficiency(knowledge_id) < 11);
}

#[test]
fn discovery_stage_progression() {
    let mut progress = DiscoveryProgress::new(0);

    assert_eq!(progress.stage, DiscoveryStage::AccidentalObservation);
    assert!(!progress.is_discovered());

    let (advanced, old) = progress.add_progress(70, 50, 10);
    assert!(advanced);
    assert_eq!(old, Some(DiscoveryStage::AccidentalObservation));
    assert_eq!(progress.stage, DiscoveryStage::AffordanceCandidate);

    progress.add_progress(70, 50, 20);
    progress.add_progress(70, 50, 30);
    assert_eq!(progress.stage, DiscoveryStage::Technique);
    assert!(progress.is_discovered());
}

#[test]
fn agent_discovery_progress_tracks_stages() {
    let mut agent = AgentKnowledge::new();
    let id = KnowledgeId(1);

    agent.init_discovery(id, 0);
    assert_eq!(agent.discovery_stage(id), Some(DiscoveryStage::AccidentalObservation));

    let (advanced, _) = agent.add_discovery_progress(id, 70, 50, 10);
    assert!(advanced);
    assert_eq!(agent.discovery_stage(id), Some(DiscoveryStage::AffordanceCandidate));
    assert!(!agent.knows(id));

    agent.add_discovery_progress(id, 70, 50, 20);
    agent.add_discovery_progress(id, 70, 50, 30);

    assert!(agent.knows(id));
    assert_eq!(agent.discovery_stage(id), Some(DiscoveryStage::Technique));
}

#[test]
fn discovery_stage_counts() {
    let mut agent = AgentKnowledge::new();

    agent.init_discovery(KnowledgeId(1), 0);
    agent.init_discovery(KnowledgeId(2), 0);
    agent.init_discovery(KnowledgeId(3), 0);

    agent.add_discovery_progress(KnowledgeId(1), 70, 50, 10);
    agent.add_discovery_progress(KnowledgeId(2), 70, 50, 10);
    agent.add_discovery_progress(KnowledgeId(2), 70, 50, 20);

    let counts = agent.stage_counts();
    assert_eq!(counts.get(&DiscoveryStage::AccidentalObservation), Some(&1));
    assert_eq!(counts.get(&DiscoveryStage::AffordanceCandidate), Some(&1));
    assert_eq!(counts.get(&DiscoveryStage::ProcessSchema), Some(&1));
}

#[test]
fn known_items_stay_in_id_order_and_decay_to_forgetting() {
    let mut agent = AgentKnowledge::new();
    agent.learn(KnowledgeId(9), 0);
    agent.learn(KnowledgeId(2), 0);
    agent.learn(KnowledgeId(5), 2000);
    agent.learn(KnowledgeId(2), 0);
    assert_eq!(agent.known_knowledge(), &[KnowledgeId(2), KnowledgeId(5), KnowledgeId(9)]);
    assert_eq!(agent.knowledge_count(), 3);
    // Items 2 and 9 are stale at tick 2500; their proficiency 10 drops to 0.
    agent.apply_decay(2500, 10);
    assert_eq!(agent.known_knowledge(), &[KnowledgeId(5)]);
    assert_eq!(agent.proficiency(KnowledgeId(2)), 0);
    assert_eq!(agent.discovery_stage(KnowledgeId(2)), None);
    assert_eq!(agent.proficiency(KnowledgeId(5)), 10);
    assert_eq!(agent.average_proficiency(), 10);
}

#[test]
fn practice_caps_at_one_hundred_and_ignores_unknown_items() {
    let mut agent = AgentKnowledge::new();
    agent.learn(KnowledgeId(1), 0);
    for t in 0..200 {
        agent.practice(KnowledgeId(1), t);
    }
    assert_eq!(agent.proficiency(KnowledgeId(1)), 100);
    agent.practice(KnowledgeId(3), 5);
    assert_eq!(agent.proficiency(KnowledgeId(3)), 0);
    assert!(!agent.ready_to_discover(KnowledgeId(3)));
}

#[test]
fn last_stage_does_not_advance() {
    let mut progress = DiscoveryProgress::new(0);
    progress.stage = DiscoveryStage::InstitutionalizedPractice;
    let (advanced, old) = progress.add_progress(100, 0, 1);
    assert!(!advanced);
    assert_eq!(old, None);
    assert_eq!(progress.stage_progress, 100);
    assert_eq!(progress.total_progress, 100);
    assert_eq!(DiscoveryStage::InstitutionalizedPractice.next(), None);
    assert_eq!(DiscoveryStage::Technique.as_u8(), 4);
}
