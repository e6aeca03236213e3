use vstd::prelude::*;

use crate::agents::{AgentId, min_int, sat_sub_u8};

verus! {

/// Identifier of an animal archetype.
#[derive(Debug, Clone, Copy, PartialEq, Eq, Hash, Structural)]
pub struct SpeciesId(pub u64);

/// Traits that define what an animal can do; most are on a 0-100 scale.
#[derive(Debug, Clone, Copy, PartialEq, Eq, Structural)]
pub struct AnimalTraits {
    pub strength: u8,
    pub stamina: u8,
    pub speed: u8,
    pub temperament: u8,
    pub trainability: u8,
    pub feed_requirement: u8,
    pub disease_susceptibility: u8,
    pub reproduction_rate: u8,
    pub lifespan_profile: u32,
    pub waste_output: u8,
}

impl AnimalTraits {
    /// Balanced traits: 50 everywhere and a lifespan of 2000 ticks.
    pub fn balanced() -> (t: Self)
        ensures
            t == (AnimalTraits {
                strength: 50,
                stamina: 50,
                speed: 50,
                temperament: 50,
                trainability: 50,
                feed_requirement: 50,
                disease_susceptibility: 50,
                reproduction_rate: 50,
                lifespan_profile: 2000,
                waste_output: 50,
            }),
    {
        AnimalTraits {
            strength: 50,
            stamina: 50,
            speed: 50,
            temperament: 50,
            trainability: 50,
            feed_requirement: 50,
            disease_susceptibility: 50,
            reproduction_rate: 50,
            lifespan_profile: 2000,
            waste_output: 50,
        }
    }
}

/// What an animal can be used for.
#[derive(Debug, Clone, Copy, PartialEq, Eq, Structural)]
pub struct AnimalCapabilities {
    pub can_ride: bool,
    pub can_carry_load: bool,
    pub can_pull_traction: bool,
    pub can_hunt_assist: bool,
    pub can_guard: bool,
    pub can_herd_assist: bool,
    pub produces_milk: bool,
    pub produces_fiber: bool,
    pub produces_eggs: bool,
    pub high_manure_value: bool,
}

pub open spec fn spec_no_capabilities() -> AnimalCapabilities {
    AnimalCapabilities {
        can_ride: false,
        can_carry_load: false,
        can_pull_traction: false,
        can_hunt_assist: false,
        can_guard: false,
        can_herd_assist: false,
        produces_milk: false,
        produces_fiber: false,
        produces_eggs: false,
        high_manure_value: false,
    }
}

pub open spec fn spec_all_capabilities() -> AnimalCapabilities {
    AnimalCapabilities {
        can_ride: true,
        can_carry_load: true,
        can_pull_traction: true,
        can_hunt_assist: true,
        can_guard: true,
        can_herd_assist: true,
        produces_milk: true,
        produces_fiber: true,
        produces_eggs: true,
        high_manure_value: true,
    }
}

impl AnimalCapabilities {
    pub fn none() -> (c: Self)
        ensures
            c == spec_no_capabilities(),
    {
        AnimalCapabilities {
            can_ride: false,
            can_carry_load: false,
            can_pull_traction: false,
            can_hunt_assist: false,
            can_guard: false,
            can_herd_assist: false,
            produces_milk: false,
            produces_fiber: false,
            produces_eggs: false,
            high_manure_value: false,
        }
    }

    pub fn all() -> (c: Self)
        ensures
            c == spec_all_capabilities(),
    {
        AnimalCapabilities {
            can_ride: true,
            can_carry_load: true,
            can_pull_traction: true,
            can_hunt_assist: true,
            can_guard: true,
            can_herd_assist: true,
            produces_milk: true,
            produces_fiber: true,
            produces_eggs: true,
            high_manure_value: true,
        }
    }
}

/// A species archetype.
#[derive(Debug, Clone, Copy)]
pub struct SpeciesArchetype {
    pub id: SpeciesId,
    pub name: &'static str,
    pub traits: AnimalTraits,
    pub capabilities: AnimalCapabilities,
    pub base_meat_yield: u32,
    pub is_domesticated: bool,
}

/// Whether `id` names one of the ten archetypes.
pub open spec fn is_archetype_id(id: u64) -> bool {
    1 <= id <= 10
}

/// Traits of the archetype with the given id (ids 1 to 10).
pub open spec fn archetype_traits(id: u64) -> AnimalTraits {
    if id == 1 {
        AnimalTraits {
            strength: 75,
            stamina: 80,
            speed: 90,
            temperament: 60,
            trainability: 75,
            feed_requirement: 70,
            disease_susceptibility: 60,
            reproduction_rate: 40,
            lifespan_profile: 2500,
            waste_output: 60,
        }
    } else if id == 2 {
        AnimalTraits {
            strength: 95,
            stamina: 70,
            speed: 40,
            temperament: 65,
            trainability: 60,
            feed_requirement: 85,
            disease_susceptibility: 55,
            reproduction_rate: 35,
            lifespan_profile: 2200,
            waste_output: 90,
        }
    } else if id == 3 {
        AnimalTraits {
            strength: 40,
            stamina: 75,
            speed: 80,
            temperament: 70,
            trainability: 90,
            feed_requirement: 40,
            disease_susceptibility: 70,
            reproduction_rate: 80,
            lifespan_profile: 1500,
            waste_output: 30,
        }
    } else if id == 4 {
        AnimalTraits {
            strength: 35,
            stamina: 60,
            speed: 50,
            temperament: 55,
            trainability: 50,
            feed_requirement: 50,
            disease_susceptibility: 65,
            reproduction_rate: 70,
            lifespan_profile: 1200,
            waste_output: 50,
        }
    } else if id == 5 {
        AnimalTraits {
            strength: 40,
            stamina: 70,
            speed: 55,
            temperament: 50,
            trainability: 55,
            feed_requirement: 45,
            disease_susceptibility: 60,
            reproduction_rate: 75,
            lifespan_profile: 1400,
            waste_output: 45,
        }
    } else if id == 6 {
        AnimalTraits {
            strength: 50,
            stamina: 45,
            speed: 45,
            temperament: 45,
            trainability: 65,
            feed_requirement: 90,
            disease_susceptibility: 75,
            reproduction_rate: 95,
            lifespan_profile: 1000,
            waste_output: 70,
        }
    } else if id == 7 {
        AnimalTraits {
            strength: 10,
            stamina: 40,
            speed: 30,
            temperament: 40,
            trainability: 30,
            feed_requirement: 25,
            disease_susceptibility: 80,
            reproduction_rate: 90,
            lifespan_profile: 400,
            waste_output: 35,
        }
    } else if id == 8 {
        AnimalTraits {
            strength: 15,
            stamina: 50,
            speed: 45,
            temperament: 45,
            trainability: 35,
            feed_requirement: 35,
            disease_susceptibility: 70,
            reproduction_rate: 70,
            lifespan_profile: 600,
            waste_output: 40,
        }
    } else if id == 9 {
        AnimalTraits {
            strength: 50,
            stamina: 70,
            speed: 85,
            temperament: 20,
            trainability: 15,
            feed_requirement: 60,
            disease_susceptibility: 50,
            reproduction_rate: 50,
            lifespan_profile: 1200,
            waste_output: 50,
        }
    } else {
        AnimalTraits {
            strength: 70,
            stamina: 65,
            speed: 60,
            temperament: 25,
            trainability: 20,
            feed_requirement: 70,
            disease_susceptibility: 70,
            reproduction_rate: 70,
            lifespan_profile: 1000,
            waste_output: 60,
        }
    }
}

/// Capabilities of the archetype with the given id (ids 1 to 10).
pub open spec fn archetype_capabilities(id: u64) -> AnimalCapabilities {
    if id == 1 {
        AnimalCapabilities {
            can_ride: true,
            can_carry_load: true,
            can_pull_traction: true,
            can_hunt_assist: false,
            can_guard: false,
            can_herd_assist: false,
            produces_milk: false,
            produces_fiber: false,
            produces_eggs: false,
            high_manure_value: true,
        }
    } else if id == 2 {
        AnimalCapabilities {
            can_ride: false,
            can_carry_load: true,
            can_pull_traction: true,
            can_hunt_assist: false,
            can_guard: false,
            can_herd_assist: false,
            produces_milk: true,
            produces_fiber: false,
            produces_eggs: false,
            high_manure_value: true,
        }
    } else if id == 3 {
        AnimalCapabilities {
            can_ride: false,
            can_carry_load: false,
            can_pull_traction: false,
            can_hunt_assist: true,
            can_guard: true,
            can_herd_assist: true,
            produces_milk: false,
            produces_fiber: false,
            produces_eggs: false,
            high_manure_value: false,
        }
    } else if id == 4 {
        AnimalCapabilities {
            can_ride: false,
            can_carry_load: false,
            can_pull_traction: false,
            can_hunt_assist: false,
            can_guard: false,
            can_herd_assist: false,
            produces_milk: true,
            produces_fiber: true,
            produces_eggs: false,
            high_manure_value: true,
        }
    } else if id == 5 {
        AnimalCapabilities {
            can_ride: false,
            can_carry_load: true,
            can_pull_traction: false,
            can_hunt_assist: false,
            can_guard: false,
            can_herd_assist: false,
            produces_milk: true,
            produces_fiber: true,
            produces_eggs: false,
            high_manure_value: true,
        }
    } else if id == 6 {
        AnimalCapabilities {
            can_ride: false,
            can_carry_load: false,
            can_pull_traction: false,
            can_hunt_assist: false,
            can_guard: true,
            can_herd_assist: false,
            produces_milk: false,
            produces_fiber: false,
            produces_eggs: false,
            high_manure_value: true,
        }
    } else if id == 7 {
        AnimalCapabilities {
            can_ride: false,
            can_carry_load: false,
            can_pull_traction: false,
            can_hunt_assist: false,
            can_guard: false,
            can_herd_assist: false,
            produces_milk: false,
            produces_fiber: false,
            produces_eggs: true,
            high_manure_value: false,
        }
    } else if id == 8 {
        AnimalCapabilities {
            can_ride: false,
            can_carry_load: false,
            can_pull_traction: false,
            can_hunt_assist: false,
            can_guard: false,
            can_herd_assist: false,
            produces_milk: false,
            produces_fiber: false,
            produces_eggs: true,
            high_manure_value: false,
        }
    } else if id == 9 {
        spec_no_capabilities()
    } else {
        spec_no_capabilities()
    }
}

/// Name of the archetype with the given id (ids 1 to 10).
pub open spec fn archetype_name(id: u64) -> Seq<char> {
    if id == 1 {
        "Horse"@
    } else if id == 2 {
        "Ox/Cattle"@
    } else if id == 3 {
        "Dog"@
    } else if id == 4 {
        "Sheep"@
    } else if id == 5 {
        "Goat"@
    } else if id == 6 {
        "Pig"@
    } else if id == 7 {
        "Poultry"@
    } else if id == 8 {
        "Waterfowl"@
    } else if id == 9 {
        "Deer"@
    } else {
        "Wild Boar"@
    }
}

/// Meat yield of the archetype with the given id (ids 1 to 10).
pub open spec fn archetype_meat_yield(id: u64) -> u32 {
    if id == 1 {
        300
    } else if id == 2 {
        400
    } else if id == 3 {
        50
    } else if id == 4 {
        80
    } else if id == 5 {
        60
    } else if id == 6 {
        150
    } else if id == 7 {
        20
    } else if id == 8 {
        30
    } else if id == 9 {
        100
    } else {
        120
    }
}

/// Whether the archetype with the given id is domesticated (ids 1 to 8 are).
pub open spec fn archetype_domesticated(id: u64) -> bool {
    id <= 8
}

/// `s` is the archetype with id `id`, with all its fields.
pub open spec fn is_archetype(s: SpeciesArchetype, id: u64) -> bool {
    &&& is_archetype_id(id)
    &&& s.id == SpeciesId(id)
    &&& s.name@ == archetype_name(id)
    &&& s.traits == archetype_traits(id)
    &&& s.capabilities == archetype_capabilities(id)
    &&& s.base_meat_yield == archetype_meat_yield(id)
    &&& s.is_domesticated == archetype_domesticated(id)
}

/// The predefined archetypes.
pub struct SpeciesArchetypes;

impl SpeciesArchetypes {
    /// Horse - transport, riding, light traction
    pub fn horse() -> (s: SpeciesArchetype)
        ensures
            is_archetype(s, 1),
    {
        SpeciesArchetype {
            id: SpeciesId(1),
            name: "Horse",
            traits: AnimalTraits {
                strength: 75,
                stamina: 80,
                speed: 90,
                temperament: 60,
                trainability: 75,
                feed_requirement: 70,
                disease_susceptibility: 60,
                reproduction_rate: 40,
                lifespan_profile: 2500,
                waste_output: 60,
            },
            capabilities: AnimalCapabilities {
                can_ride: true,
                can_carry_load: true,
                can_pull_traction: true,
                can_hunt_assist: false,
                can_guard: false,
                can_herd_assist: false,
                produces_milk: false,
                produces_fiber: false,
                produces_eggs: false,
                high_manure_value: true,
            },
            base_meat_yield: 300,
            is_domesticated: true,
        }
    }

    /// Ox/Cattle - heavy traction, meat, milk, manure
    pub fn ox_cattle() -> (s: SpeciesArchetype)
        ensures
            is_archetype(s, 2),
    {
        SpeciesArchetype {
            id: SpeciesId(2),
            name: "Ox/Cattle",
            traits: AnimalTraits {
                strength: 95,
                stamina: 70,
                speed: 40,
                temperament: 65,
                trainability: 60,
                feed_requirement: 85,
                disease_susceptibility: 55,
                reproduction_rate: 35,
                lifespan_profile: 2200,
                waste_output: 90,
            },
            capabilities: AnimalCapabilities {
                can_ride: false,
                can_carry_load: true,
                can_pull_traction: true,
                can_hunt_assist: false,
                can_guard: false,
                can_herd_assist: false,
                produces_milk: true,
                produces_fiber: false,
                produces_eggs: false,
                high_manure_value: true,
            },
            base_meat_yield: 400,
            is_domesticated: true,
        }
    }

    /// Dog - companionship, hunting support, guarding, herding
    pub fn dog() -> (s: SpeciesArchetype)
        ensures
            is_archetype(s, 3),
    {
        SpeciesArchetype {
            id: SpeciesId(3),
            name: "Dog",
            traits: AnimalTraits {
                strength: 40,
                stamina: 75,
                speed: 80,
                temperament: 70,
                trainability: 90,
                feed_requirement: 40,
                disease_susceptibility: 70,
                reproduction_rate: 80,
                lifespan_profile: 1500,
                waste_output: 30,
            },
            capabilities: AnimalCapabilities {
                can_ride: false,
                can_carry_load: false,
                can_pull_traction: false,
                can_hunt_assist: true,
                can_guard: true,
                can_herd_assist: true,
                produces_milk: false,
                produces_fiber: false,
                produces_eggs: false,
                high_manure_value: false,
            },
            base_meat_yield: 50,
            is_domesticated: true,
        }
    }

    /// Sheep - wool, meat, milk (light), manure
    pub fn sheep() -> (s: SpeciesArchetype)
        ensures
            is_archetype(s, 4),
    {
        SpeciesArchetype {
            id: SpeciesId(4),
            name: "Sheep",
            traits: AnimalTraits {
                strength: 35,
                stamina: 60,
                speed: 50,
                temperament: 55,
                trainability: 50,
                feed_requirement: 50,
                disease_susceptibility: 65,
                reproduction_rate: 70,
                lifespan_profile: 1200,
                waste_output: 50,
            },
            capabilities: AnimalCapabilities {
                can_ride: false,
                can_carry_load: false,
                can_pull_traction: false,
                can_hunt_assist: false,
                can_guard: false,
                can_herd_assist: false,
                produces_milk: true,
                produces_fiber: true,
                produces_eggs: false,
                high_manure_value: true,
            },
            base_meat_yield: 80,
            is_domesticated: true,
        }
    }

    /// Goat - milk, meat, rough terrain browsing, manure
    pub fn goat() -> (s: SpeciesArchetype)
        ensures
            is_archetype(s, 5),
    {
        SpeciesArchetype {
            id: SpeciesId(5),
            name: "Goat",
            traits: AnimalTraits {
                strength: 40,
                stamina: 70,
                speed: 55,
                temperament: 50,
                trainability: 55,
                feed_requirement: 45,
                disease_susceptibility: 60,
                reproduction_rate: 75,
                lifespan_profile: 1400,
                waste_output: 45,
            },
            capabilities: AnimalCapabilities {
                can_ride: false,
                can_carry_load: true,
                can_pull_traction: false,
                can_hunt_assist: false,
                can_guard: false,
                can_herd_assist: false,
                produces_milk: true,
                produces_fiber: true,
                produces_eggs: false,
                high_manure_value: true,
            },
            base_meat_yield: 60,
            is_domesticated: true,
        }
    }

    /// Pig - meat, waste conversion, high feed demand
    pub fn pig() -> (s: SpeciesArchetype)
        ensures
            is_archetype(s, 6),
    {
        SpeciesArchetype {
            id: SpeciesId(6),
            name: "Pig",
            traits: AnimalTraits {
                strength: 50,
                stamina: 45,
                speed: 45,
                temperament: 45,
                trainability: 65,
                feed_requirement: 90,
                disease_susceptibility: 75,
                reproduction_rate: 95,
                lifespan_profile: 1000,
                waste_output: 70,
            },
            capabilities: AnimalCapabilities {
                can_ride: false,
                can_carry_load: false,
                can_pull_traction: false,
                can_hunt_assist: false,
                can_guard: true,
                can_herd_assist: false,
                produces_milk: false,
                produces_fiber: false,
                produces_eggs: false,
                high_manure_value: true,
            },
            base_meat_yield: 150,
            is_domesticated: true,
        }
    }

    /// Poultry - eggs, meat, pest pressure coupling
    pub fn poultry() -> (s: SpeciesArchetype)
        ensures
            is_archetype(s, 7),
    {
        SpeciesArchetype {
            id: SpeciesId(7),
            name: "Poultry",
            traits: AnimalTraits {
                strength: 10,
                stamina: 40,
                speed: 30,
                temperament: 40,
                trainability: 30,
                feed_requirement: 25,
                disease_susceptibility: 80,
                reproduction_rate: 90,
                lifespan_profile: 400,
                waste_output: 35,
            },
            capabilities: AnimalCapabilities {
                can_ride: false,
                can_carry_load: false,
                can_pull_traction: false,
                can_hunt_assist: false,
                can_guard: false,
                can_herd_assist: false,
                produces_milk: false,
                produces_fiber: false,
                produces_eggs: true,
                high_manure_value: false,
            },
            base_meat_yield: 20,
            is_domesticated: true,
        }
    }

    /// Waterfowl - eggs/meat in wet systems, moderate pest coupling
    pub fn waterfowl() -> (s: SpeciesArchetype)
        ensures
            is_archetype(s, 8),
    {
        SpeciesArchetype {
            id: SpeciesId(8),
            name: "Waterfowl",
            traits: AnimalTraits {
                strength: 15,
                stamina: 50,
                speed: 45,
                temperament: 45,
                trainability: 35,
                feed_requirement: 35,
                disease_susceptibility: 70,
                reproduction_rate: 70,
                lifespan_profile: 600,
                waste_output: 40,
            },
            capabilities: AnimalCapabilities {
                can_ride: false,
                can_carry_load: false,
                can_pull_traction: false,
                can_hunt_assist: false,
                can_guard: false,
                can_herd_assist: false,
                produces_milk: false,
                produces_fiber: false,
                produces_eggs: true,
                high_manure_value: false,
            },
            base_meat_yield: 30,
            is_domesticated: true,
        }
    }

    /// Deer - wild prey baseline
    pub fn deer() -> (s: SpeciesArchetype)
        ensures
            is_archetype(s, 9),
    {
        SpeciesArchetype {
            id: SpeciesId(9),
            name: "Deer",
            traits: AnimalTraits {
                strength: 50,
                stamina: 70,
                speed: 85,
                temperament: 20,
                trainability: 15,
                feed_requirement: 60,
                disease_susceptibility: 50,
                reproduction_rate: 50,
                lifespan_profile: 1200,
                waste_output: 50,
            },
            capabilities: AnimalCapabilities::none(),
            base_meat_yield: 100,
            is_domesticated: false,
        }
    }

    /// Wild Boar - wild risk and prey
    pub fn wild_boar() -> (s: SpeciesArchetype)
        ensures
            is_archetype(s, 10),
    {
        SpeciesArchetype {
            id: SpeciesId(10),
            name: "Wild Boar",
            traits: AnimalTraits {
                strength: 70,
                stamina: 65,
                speed: 60,
                temperament: 25,
                trainability: 20,
                feed_requirement: 70,
                disease_susceptibility: 70,
                reproduction_rate: 70,
                lifespan_profile: 1000,
                waste_output: 60,
            },
            capabilities: AnimalCapabilities::none(),
            base_meat_yield: 120,
            is_domesticated: false,
        }
    }

    /// The eight domesticated archetypes, ids 1 to 8 in order.
    pub fn domesticated() -> (v: Vec<SpeciesArchetype>)
        ensures
            v@.len() == 8,
            forall|i: int| 0 <= i < 8 ==> is_archetype(#[trigger] v@[i], (i + 1) as u64),
    {
        vec![
            Self::horse(),
            Self::ox_cattle(),
            Self::dog(),
            Self::sheep(),
            Self::goat(),
            Self::pig(),
            Self::poultry(),
            Self::waterfowl(),
        ]
    }

    /// The two wild archetypes, ids 9 and 10.
    pub fn wild() -> (v: Vec<SpeciesArchetype>)
        ensures
            v@.len() == 2,
            is_archetype(v@[0], 9),
            is_archetype(v@[1], 10),
    {
        vec![Self::deer(), Self::wild_boar()]
    }

    /// All ten archetypes, ids 1 to 10 in order; so no two share an id.
    pub fn all() -> (v: Vec<SpeciesArchetype>)
        ensures
            v@.len() == 10,
            forall|i: int| 0 <= i < 10 ==> is_archetype(#[trigger] v@[i], (i + 1) as u64),
            forall|i: int, j: int| 0 <= i < j < v@.len() ==> (#[trigger] v@[i]).id != (#[trigger] v@[j]).id,
    {
        let mut all = Self::domesticated();
        let mut wild = Self::wild();
        all.append(&mut wild);
        assert(is_archetype(all@[8], 9));
        assert(is_archetype(all@[9], 10));
        all
    }

    /// The archetype with the given id, if there is one.
    pub fn by_id(id: SpeciesId) -> (r: Option<SpeciesArchetype>)
        ensures
            is_archetype_id(id.0) ==> (r is Some && is_archetype(r.unwrap(), id.0)),
            !is_archetype_id(id.0) ==> r is None,
    {
        let all = Self::all();
        let mut i: usize = 0;
        while i < all.len()
            invariant
                all@.len() == 10,
                0 <= i <= 10,
                forall|k: int| 0 <= k < 10 ==> is_archetype(#[trigger] all@[k], (k + 1) as u64),
                forall|k: int| 0 <= k < i ==> all@[k].id.0 != id.0,
            decreases 10 - i,
        {
            if all[i].id.0 == id.0 {
                return Some(all[i]);
            }
            i = i + 1;
        }
        if 1 <= id.0 && id.0 <= 10 {
            assert(is_archetype(all@[id.0 as int - 1], id.0));
            assert(false);
        }
        None
    }
}


/// An individual animal.
#[derive(Debug, Clone, Copy, PartialEq, Eq, Structural)]
pub struct Animal {
    pub id: u64,
    pub species_id: SpeciesId,
    pub partition_id: u64,
    pub health: u8,
    pub training: u8,
    pub harness_training: u8,
    pub handler_bond: u8,
    pub alertness: u8,
    pub nutrition: u8,
    pub age: u32,
    pub is_alive: bool,
    pub is_domesticated: bool,
    pub owner_id: Option<AgentId>,
}

pub open spec fn spec_new_animal(id: u64, species_id: SpeciesId, partition_id: u64) -> Animal {
    Animal {
        id,
        species_id,
        partition_id,
        health: 100,
        training: 0,
        harness_training: 0,
        handler_bond: 0,
        alertness: 50,
        nutrition: 80,
        age: 0,
        is_alive: true,
        is_domesticated: false,
        owner_id: None,
    }
}

/// One tick of an animal's life: it ages, loses health when badly fed, its
/// nutrition falls by 2, and an animal of a known species dies at the end of
/// the species' lifespan or at zero health.
pub open spec fn spec_animal_update(a: Animal) -> Animal {
    if !a.is_alive {
        a
    } else {
        let age = (a.age + 1) as u32;
        let health = if a.nutrition < 30 { sat_sub_u8(a.health as int, 1) } else { a.health };
        let nutrition = sat_sub_u8(a.nutrition as int, 2);
        let dies = is_archetype_id(a.species_id.0) && (age >= archetype_traits(a.species_id.0).lifespan_profile
            || health == 0);
        Animal { age, health, nutrition, is_alive: !dies, ..a }
    }
}

/// The life rules of one tick for an animal: a dead one stays as it is; a
/// living one grows a tick older, loses at most one point of health (and none
/// when its nutrition is at least 30), and its nutrition falls by 2 (not below
/// zero). One of a known species then stays alive exactly when its health is
/// above zero and its new age is below the species' lifespan; one of an
/// unknown species stays alive.
pub proof fn lemma_animal_update_laws(a: Animal)
    requires
        a.is_alive ==> a.age < u32::MAX,
    ensures
        !a.is_alive ==> spec_animal_update(a) == a,
        a.is_alive ==> {
            let b = spec_animal_update(a);
            &&& b.age == a.age + 1
            &&& b.health <= a.health && a.health - b.health <= 1
            &&& a.nutrition >= 30 ==> b.health == a.health
            &&& b.nutrition == (if a.nutrition >= 2 { a.nutrition - 2 } else { 0 })
            &&& is_archetype_id(a.species_id.0) ==> (b.is_alive <==> (b.health > 0 && b.age
                < archetype_traits(a.species_id.0).lifespan_profile))
            &&& !is_archetype_id(a.species_id.0) ==> b.is_alive
            &&& b.id == a.id && b.species_id == a.species_id && b.partition_id == a.partition_id
        },
{
}

impl Animal {
    pub fn new(id: u64, species_id: SpeciesId, partition_id: u64) -> (a: Self)
        ensures
            a == spec_new_animal(id, species_id, partition_id),
    {
        Animal {
            id,
            species_id,
            partition_id,
            health: 100,
            training: 0,
            harness_training: 0,
            handler_bond: 0,
            alertness: 50,
            nutrition: 80,
            age: 0,
            is_alive: true,
            is_domesticated: false,
            owner_id: None,
        }
    }

    /// The archetype of this animal's species, if it is a known one.
    pub fn species(&self) -> (r: Option<SpeciesArchetype>)
        ensures
            is_archetype_id(self.species_id.0) ==> (r is Some && is_archetype(r.unwrap(), self.species_id.0)),
            !is_archetype_id(self.species_id.0) ==> r is None,
    {
        SpeciesArchetypes::by_id(self.species_id)
    }

    pub fn update(&mut self)
        requires
            old(self).is_alive ==> old(self).age < u32::MAX,
        ensures
            *final(self) == spec_animal_update(*old(self)),
            old(self).is_alive && is_archetype_id(old(self).species_id.0) ==> (final(self).is_alive <==> (
            final(self).health > 0 && final(self).age < archetype_traits(old(self).species_id.0).lifespan_profile)),
            old(self).is_alive ==> final(self).age == old(self).age + 1 && final(self).health <= old(self).health,
            !old(self).is_alive ==> *final(self) == *old(self),
    {
        proof {
            lemma_animal_update_laws(*self);
        }
        if !self.is_alive {
            return;
        }
        self.age = self.age + 1;
        if self.nutrition < 30 {
            self.health = self.health.saturating_sub(1);
        }
        self.nutrition = self.nutrition.saturating_sub(2);
        if let Some(species) = self.species() {
            if self.age >= species.traits.lifespan_profile || self.health == 0 {
                self.is_alive = false;
            }
        }
    }

    /// Adds to nutrition, capped at 100.
    pub fn feed(&mut self, amount: u8)
        requires
            old(self).nutrition + amount <= 255,
        ensures
            *final(self) == (Animal { nutrition: min_int(old(self).nutrition + amount, 100) as u8, ..*old(self) }),
    {
        let n: u8 = self.nutrition + amount;
        self.nutrition = if n <= 100 { n } else { 100 };
    }
}

/// The living animals of a sequence, in order.
pub open spec fn living_animals(s: Seq<Animal>) -> Seq<Animal>
    decreases s.len(),
{
    if s.len() == 0 {
        Seq::empty()
    } else if s.last().is_alive {
        living_animals(s.drop_last()).push(s.last())
    } else {
        living_animals(s.drop_last())
    }
}

/// The animals of a sequence that stand in a partition, in order.
pub open spec fn animals_in(s: Seq<Animal>, partition_id: u64) -> Seq<Animal>
    decreases s.len(),
{
    if s.len() == 0 {
        Seq::empty()
    } else if s.last().partition_id == partition_id {
        animals_in(s.drop_last(), partition_id).push(s.last())
    } else {
        animals_in(s.drop_last(), partition_id)
    }
}

/// Number of living animals of a species.
pub open spec fn count_species(s: Seq<Animal>, species_id: SpeciesId) -> nat
    decreases s.len(),
{
    if s.len() == 0 {
        0
    } else {
        count_species(s.drop_last(), species_id) + if s.last().is_alive && s.last().species_id == species_id {
            1nat
        } else {
            0nat
        }
    }
}

pub open spec fn sum_animal_health(s: Seq<Animal>) -> nat
    decreases s.len(),
{
    if s.len() == 0 { 0 } else { sum_animal_health(s.drop_last()) + s.last().health as nat }
}

pub open spec fn sum_animal_nutrition(s: Seq<Animal>) -> nat
    decreases s.len(),
{
    if s.len() == 0 { 0 } else { sum_animal_nutrition(s.drop_last()) + s.last().nutrition as nat }
}

pub proof fn lemma_living_animals_len(s: Seq<Animal>)
    ensures
        living_animals(s).len() <= s.len(),
    decreases s.len(),
{
    if s.len() > 0 {
        lemma_living_animals_len(s.drop_last());
    }
}

pub proof fn lemma_animal_sums_bounded(s: Seq<Animal>)
    ensures
        sum_animal_health(s) <= 255 * s.len(),
        sum_animal_nutrition(s) <= 255 * s.len(),
    decreases s.len(),
{
    if s.len() > 0 {
        lemma_animal_sums_bounded(s.drop_last());
    }
}

/// Summary of the living animals.
#[derive(Debug, Clone, Copy, PartialEq, Eq, Structural)]
pub struct AnimalPopulationStatistics {
    pub total_animals: u64,
    pub average_health: u8,
    pub average_nutrition: u8,
}

impl Default for AnimalPopulationStatistics {
    fn default() -> (st: Self)
        ensures
            st == (AnimalPopulationStatistics { total_animals: 0, average_health: 0, average_nutrition: 0 }),
    {
        AnimalPopulationStatistics { total_animals: 0, average_health: 0, average_nutrition: 0 }
    }
}

/// Averages over the living animals, truncated as integer division does.
pub open spec fn spec_animal_statistics(s: Seq<Animal>) -> AnimalPopulationStatistics {
    let living = living_animals(s);
    let n = living.len();
    if n == 0 {
        AnimalPopulationStatistics { total_animals: 0, average_health: 0, average_nutrition: 0 }
    } else {
        AnimalPopulationStatistics {
            total_animals: n as u64,
            average_health: (sum_animal_health(living) / n) as u8,
            average_nutrition: (sum_animal_nutrition(living) / n) as u8,
        }
    }
}

/// All animals of the simulation.
#[derive(Debug, Clone)]
pub struct AnimalPopulation {
    next_id: u64,
    animals: Vec<Animal>,
}

impl View for AnimalPopulation {
    type V = Seq<Animal>;

    closed spec fn view(&self) -> Seq<Animal> {
        self.animals@
    }
}

impl AnimalPopulation {
    /// The id the next spawned animal will get.
    pub closed spec fn next_animal_id(&self) -> u64 {
        self.next_id
    }

    pub fn new() -> (p: Self)
        ensures
            p@ == Seq::<Animal>::empty(),
            p.next_animal_id() == 1,
    {
        AnimalPopulation { next_id: 1, animals: Vec::new() }
    }

    pub fn add(&mut self, animal: Animal)
        ensures
            final(self)@ == old(self)@.push(animal),
            final(self).next_animal_id() == old(self).next_animal_id(),
    {
        self.animals.push(animal);
    }

    /// Spawns a fresh animal with the next id and returns a copy of it.
    pub fn spawn(&mut self, species_id: SpeciesId, partition_id: u64) -> (a: Animal)
        requires
            old(self).next_animal_id() < u64::MAX,
        ensures
            a == spec_new_animal(old(self).next_animal_id(), species_id, partition_id),
            final(self)@ == old(self)@.push(a),
            final(self).next_animal_id() == old(self).next_animal_id() + 1,
    {
        let animal = Animal::new(self.next_id, species_id, partition_id);
        self.next_id = self.next_id + 1;
        self.animals.push(animal);
        animal
    }

    pub fn animals(&self) -> (r: &[Animal])
        ensures
            r@ == self@,
    {
        self.animals.as_slice()
    }

    pub fn animals_mut(&mut self) -> (r: &mut [Animal])
        ensures
            r@ == old(self)@,
            final(self)@ == final(r)@,
            final(self).next_animal_id() == old(self).next_animal_id(),
    {
        self.animals.as_mut_slice()
    }

    /// The animals in a partition, in order.
    pub fn animals_in_partition(&self, partition_id: u64) -> (r: Vec<&Animal>)
        ensures
            r@.len() == animals_in(self@, partition_id).len(),
            forall|i: int| 0 <= i < r@.len() ==> *(#[trigger] r@[i]) == animals_in(self@, partition_id)[i],
    {
        let mut r: Vec<&Animal> = Vec::new();
        let mut i: usize = 0;
        while i < self.animals.len()
            invariant
                0 <= i <= self@.len(),
                r@.len() == animals_in(self@.take(i as int), partition_id).len(),
                forall|j: int|
                    0 <= j < r@.len() ==> *(#[trigger] r@[j]) == animals_in(self@.take(i as int), partition_id)[j],
            decreases self@.len() - i,
        {
            proof {
                assert(self@.take(i + 1).drop_last() =~= self@.take(i as int));
            }
            if self.animals[i].partition_id == partition_id {
                r.push(&self.animals[i]);
            }
            i = i + 1;
        }
        proof {
            assert(self@.take(self@.len() as int) =~= self@);
        }
        r
    }

    pub fn living_count(&self) -> (n: usize)
        ensures
            n == living_animals(self@).len(),
    {
        let mut n: usize = 0;
        let mut i: usize = 0;
        while i < self.animals.len()
            invariant
                0 <= i <= self@.len(),
                n == living_animals(self@.take(i as int)).len(),
            decreases self@.len() - i,
        {
            proof {
                assert(self@.take(i + 1).drop_last() =~= self@.take(i as int));
                lemma_living_animals_len(self@.take(i as int));
            }
            if self.animals[i].is_alive {
                n = n + 1;
            }
            i = i + 1;
        }
        proof {
            assert(self@.take(self@.len() as int) =~= self@);
        }
        n
    }

    pub fn count_by_species(&self, species_id: SpeciesId) -> (n: usize)
        ensures
            n == count_species(self@, species_id),
    {
        let mut n: usize = 0;
        let mut i: usize = 0;
        while i < self.animals.len()
            invariant
                0 <= i <= self@.len(),
                n == count_species(self@.take(i as int), species_id),
                n <= i,
            decreases self@.len() - i,
        {
            proof {
                assert(self@.take(i + 1).drop_last() =~= self@.take(i as int));
            }
            if self.animals[i].is_alive && self.animals[i].species_id.0 == species_id.0 {
                n = n + 1;
            }
            i = i + 1;
        }
        proof {
            assert(self@.take(self@.len() as int) =~= self@);
        }
        n
    }

    /// Runs one tick of every animal.
    pub fn update_all(&mut self)
        requires
            forall|i: int| 0 <= i < old(self)@.len() ==> (#[trigger] old(self)@[i]).is_alive ==> old(self)@[i].age < u32::MAX,
        ensures
            final(self)@ == old(self)@.map_values(|a: Animal| spec_animal_update(a)),
            final(self).next_animal_id() == old(self).next_animal_id(),
    {
        let ghost before = self@;
        let n = self.animals.len();
        let mut i: usize = 0;
        while i < n
            invariant
                n == before.len(),
                self@.len() == n,
                self.next_id == old(self).next_id,
                0 <= i <= n,
                forall|j: int| 0 <= j < i ==> #[trigger] self@[j] == spec_animal_update(before[j]),
                forall|j: int| i <= j < n ==> #[trigger] self@[j] == before[j],
                forall|j: int| 0 <= j < n ==> (#[trigger] before[j]).is_alive ==> before[j].age < u32::MAX,
            decreases n - i,
        {
            let mut a = self.animals[i];
            a.update();
            self.animals.set(i, a);
            i = i + 1;
        }
        assert(self@ =~= before.map_values(|a: Animal| spec_animal_update(a)));
    }

    /// Removes dead animals, keeping the order of the living.
    pub fn cleanup_dead(&mut self)
        ensures
            final(self)@ == living_animals(old(self)@),
            final(self).next_animal_id() == old(self).next_animal_id(),
    {
        let mut kept: Vec<Animal> = Vec::new();
        let mut i: usize = 0;
        while i < self.animals.len()
            invariant
                0 <= i <= self@.len(),
                kept@ == living_animals(self@.take(i as int)),
            decreases self@.len() - i,
        {
            proof {
                assert(self@.take(i + 1).drop_last() =~= self@.take(i as int));
            }
            if self.animals[i].is_alive {
                kept.push(self.animals[i]);
            }
            i = i + 1;
        }
        proof {
            assert(self@.take(self@.len() as int) =~= self@);
        }
        self.animals = kept;
    }

    /// Count and average health and nutrition of the living animals.
    pub fn statistics(&self) -> (st: AnimalPopulationStatistics)
        requires
            self@.len() <= u32::MAX,
            sum_animal_health(living_animals(self@)) <= u32::MAX,
            sum_animal_nutrition(living_animals(self@)) <= u32::MAX,
        ensures
            st == spec_animal_statistics(self@),
    {
        let mut count: u64 = 0;
        let mut total_health: u64 = 0;
        let mut total_nutrition: u64 = 0;
        let mut i: usize = 0;
        while i < self.animals.len()
            invariant
                self@.len() <= u32::MAX,
                0 <= i <= self@.len(),
                count == living_animals(self@.take(i as int)).len(),
                total_health == sum_animal_health(living_animals(self@.take(i as int))),
                total_nutrition == sum_animal_nutrition(living_animals(self@.take(i as int))),
                count <= i,
                total_health <= 255 * count,
                total_nutrition <= 255 * count,
            decreases self@.len() - i,
        {
            proof {
                assert(self@.take(i + 1).drop_last() =~= self@.take(i as int));
            }
            let a = self.animals[i];
            proof {
                let lv = living_animals(self@.take(i as int));
                assert(lv.push(a).drop_last() =~= lv);
            }
            if a.is_alive {
                count = count + 1;
                total_health = total_health + a.health as u64;
                total_nutrition = total_nutrition + a.nutrition as u64;
            }
            i = i + 1;
        }
        proof {
            assert(self@.take(self@.len() as int) =~= self@);
        }
        if count == 0 {
            return AnimalPopulationStatistics::default();
        }
        let n: u32 = count as u32;
        let th: u32 = total_health as u32;
        let tn: u32 = total_nutrition as u32;
        AnimalPopulationStatistics {
            total_animals: count,
            average_health: (th / n) as u8,
            average_nutrition: (tn / n) as u8,
        }
    }
}

impl Default for AnimalPopulation {
    fn default() -> (p: Self)
        ensures
            p@ == Seq::<Animal>::empty(),
    {
        AnimalPopulation::new()
    }
}

} // verus!
