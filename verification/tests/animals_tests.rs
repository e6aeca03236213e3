use polis::animals::{AnimalPopulation, SpeciesArchetypes, SpeciesId};

#[test]
fn species_archetypes_have_unique_ids() {
    let all = SpeciesArchetypes::all();
    let mut ids: Vec<_> = all.iter().map(|s| s.id.0).collect();
    ids.sort();
    ids.dedup();
    assert_eq!(ids.len(), all.len());
}

#[test]
fn horse_has_transport_capabilities() {
    let horse = SpeciesArchetypes::horse();
    assert!(horse.capabilities.can_ride);
    assert!(horse.capabilities.can_carry_load);
    assert!(horse.capabilities.high_manure_value);
    assert!(!horse.capabilities.produces_milk);
}

#[test]
fn cattle_have_traction_and_milk() {
    let cattle = SpeciesArchetypes::ox_cattle();
    assert!(cattle.capabilities.can_pull_traction);
    assert!(cattle.capabilities.produces_milk);
    assert!(cattle.capabilities.high_manure_value);
    assert!(!cattle.capabilities.can_ride);
}

#[test]
fn dog_has_hunting_and_guard() {
    let dog = SpeciesArchetypes::dog();
    assert!(dog.capabilities.can_hunt_assist);
    assert!(dog.capabilities.can_guard);
    assert!(dog.capabilities.can_herd_assist);
    assert!(!dog.capabilities.produces_milk);
}

#[test]
fn poultry_produces_eggs() {
    let poultry = SpeciesArchetypes::poultry();
    assert!(poultry.capabilities.produces_eggs);
    assert!(!poultry.capabilities.produces_milk);
    assert!(!poultry.capabilities.can_pull_traction);
}

#[test]
fn sheep_produces_fiber() {
    let sheep = SpeciesArchetypes::sheep();
    assert!(sheep.capabilities.produces_fiber);
    assert!(sheep.capabilities.produces_milk);
}

#[test]
fn animal_population_tracks_species() {
    let mut pop = AnimalPopulation::new();
    pop.spawn(SpeciesId(1), 0);
    pop.spawn(SpeciesId(1), 0);
    pop.spawn(SpeciesId(7), 0);

    assert_eq!(pop.count_by_species(SpeciesId(1)), 2);
    assert_eq!(pop.count_by_species(SpeciesId(7)), 1);
}

#[test]
fn wild_species_not_domesticated() {
    let deer = SpeciesArchetypes::deer();
    let boar = SpeciesArchetypes::wild_boar();

    assert!(!deer.is_domesticated);
    assert!(!boar.is_domesticated);
    assert_eq!(deer.capabilities.can_ride, false);
    assert_eq!(boar.capabilities.can_pull_traction, false);
}

#[test]
fn archetype_lookup_by_id() {
    assert_eq!(SpeciesArchetypes::by_id(SpeciesId(1)).unwrap().id.0, 1);
    assert!(SpeciesArchetypes::by_id(SpeciesId(999)).is_none());
    let domesticated = SpeciesArchetypes::domesticated();
    assert!(domesticated.iter().all(|s| s.is_domesticated));
    let wild = SpeciesArchetypes::wild();
    assert!(wild.iter().all(|s| !s.is_domesticated));
    assert_eq!(domesticated.len() + wild.len(), SpeciesArchetypes::all().len());
}
