use vstd::prelude::*;

use crate::animals::{Animal, AnimalPopulation, AnimalPopulationStatistics, living_animals, spec_animal_statistics, sum_animal_health, sum_animal_nutrition};
use crate::collective::{CollectiveRegistry, CollectiveStatistics, spec_collective_statistics, statistics_ok};
use crate::sim_core::{DeterministicRng, bounded_state, bounded_value, lemma_state_after_step, rng_draw_below, state_after};
use crate::social::{
    SocialNetwork, SocialNetworkStatistics, TieEntry, lemma_find_tie, lookup_tie, pairs_trust_bounded,
    spec_network_statistics, spec_partition_tension, tie_key, ties_bounded,
};

verus! {

pub struct AgentsModule;

impl AgentsModule {
    pub fn name() -> (n: &'static str)
        ensures
            n@ == "polis-agents"@,
    {
        "polis-agents"
    }
}

/// Unique identifier of an individual agent.
#[derive(Debug, Clone, Copy, PartialEq, Eq, Hash, Structural)]
pub struct AgentId(pub u64);

impl AgentId {
    /// Hands out the current id and moves on to the next one.
    pub fn next(&mut self) -> (current: AgentId)
        requires
            old(self).0 < u64::MAX,
        ensures
            current == *old(self),
            final(self).0 == old(self).0 + 1,
    {
        let current = self.0;
        self.0 = self.0 + 1;
        AgentId(current)
    }
}

/// The state of an individual agent.
#[derive(Debug, Clone, Copy, PartialEq, Eq, Structural)]
pub struct Individual {
    pub id: AgentId,
    pub partition_id: u64,
    pub health: u8,
    pub hunger: u8,
    pub thirst: u8,
    pub age: u64,
    pub max_lifespan: u64,
    pub reproduction_cooldown: u32,
    pub is_alive: bool,
    pub mobility: u8,
    pub metabolism: u8,
}

/// Number of generator draws that `Individual::new` consumes.
pub open spec fn new_individual_draws() -> nat {
    7
}

/// Number of generator draws that `Individual::newborn` consumes.
pub open spec fn newborn_draws() -> nat {
    11
}

/// The individual that `Individual::new` builds from a generator in state `s`.
pub open spec fn spec_new_individual(id: AgentId, partition_id: u64, s: u64) -> Individual {
    Individual {
        id,
        partition_id,
        health: (80 + rng_draw_below(s, 0, 20)) as u8,
        hunger: rng_draw_below(s, 1, 30) as u8,
        thirst: rng_draw_below(s, 2, 30) as u8,
        age: 0,
        max_lifespan: (5000 + rng_draw_below(s, 3, 3000)) as u64,
        reproduction_cooldown: (100 + rng_draw_below(s, 4, 200)) as u32,
        is_alive: true,
        mobility: (30 + rng_draw_below(s, 5, 70)) as u8,
        metabolism: (80 + rng_draw_below(s, 6, 40)) as u8,
    }
}

/// `v` clamped into `[lo, hi]`.
pub open spec fn clamp_int(v: int, lo: int, hi: int) -> int {
    if v < lo {
        lo
    } else if v > hi {
        hi
    } else {
        v
    }
}

/// The newborn that `Individual::newborn` builds from a generator in state `s`.
pub open spec fn spec_newborn(id: AgentId, partition_id: u64, parent_metabolism: u8, s: u64) -> Individual {
    let base = spec_new_individual(id, partition_id, s);
    let variation = rng_draw_below(s, 10, 10) - 5;
    Individual {
        hunger: (20 + rng_draw_below(s, 7, 20)) as u8,
        thirst: (20 + rng_draw_below(s, 8, 20)) as u8,
        reproduction_cooldown: (500 + rng_draw_below(s, 9, 500)) as u32,
        metabolism: clamp_int(parent_metabolism + variation, 50, 150) as u8,
        ..base
    }
}

pub open spec fn max_int(a: int, b: int) -> int {
    if a >= b {
        a
    } else {
        b
    }
}

pub open spec fn sat_add_u8(a: int, b: int) -> u8 {
    if a + b > 255 {
        255
    } else {
        (a + b) as u8
    }
}

pub open spec fn sat_sub_u8(a: int, b: int) -> u8 {
    if a - b < 0 {
        0
    } else {
        (a - b) as u8
    }
}

/// Whether `update_needs` can run on `a` without an arithmetic overflow.
pub open spec fn update_needs_ok(a: Individual) -> bool {
    a.is_alive ==> (a.age < u64::MAX && a.max_lifespan * 3 <= u64::MAX)
}

/// One tick of metabolism, ageing and mortality.
pub open spec fn spec_update_needs(a: Individual) -> Individual {
    if !a.is_alive {
        a
    } else {
        let hunger = sat_add_u8(a.hunger as int, max_int(a.metabolism as int / 20, 1));
        let thirst = sat_add_u8(a.thirst as int, max_int(a.metabolism as int / 15, 1));
        let age = (a.age + 1) as u64;
        let cooldown = if a.reproduction_cooldown > 0 {
            (a.reproduction_cooldown - 1) as u32
        } else {
            0u32
        };
        let h1 = if hunger >= 80 { sat_sub_u8(a.health as int, 2) } else { a.health };
        let h2 = if thirst >= 80 { sat_sub_u8(h1 as int, 3) } else { h1 };
        let h3 = if age > a.max_lifespan * 3 / 4 { sat_sub_u8(h2 as int, 1) } else { h2 };
        Individual {
            hunger,
            thirst,
            age,
            reproduction_cooldown: cooldown,
            health: h3,
            is_alive: !(h3 == 0 || age >= a.max_lifespan),
            ..a
        }
    }
}

pub open spec fn min_int(a: int, b: int) -> int {
    if a <= b {
        a
    } else {
        b
    }
}

/// Food an agent takes from a partition that offers `available_food`.
pub open spec fn food_taken(a: Individual, available_food: u64) -> u64 {
    if !a.is_alive {
        0
    } else {
        min_int(max_int(a.metabolism as int / 10, 1), available_food as int) as u64
    }
}

/// Water an agent takes from a partition that offers `available_water`.
pub open spec fn water_taken(a: Individual, available_water: u64) -> u64 {
    if !a.is_alive {
        0
    } else {
        min_int(max_int(a.metabolism as int / 8, 1), available_water as int) as u64
    }
}

/// The agent after eating and drinking (health is recovered only when well fed).
pub open spec fn spec_consume(a: Individual, available_food: u64, available_water: u64) -> Individual {
    if !a.is_alive {
        a
    } else {
        let food = food_taken(a, available_food);
        let water = water_taken(a, available_water);
        let hunger = sat_sub_u8(a.hunger as int, min_int(food * 10, 100));
        let thirst = sat_sub_u8(a.thirst as int, min_int(water * 10, 100));
        let health = if hunger < 30 && thirst < 30 {
            min_int(a.health + 1, 100) as u8
        } else {
            a.health
        };
        Individual { hunger, thirst, health, ..a }
    }
}

/// Whether `consume` can run without an arithmetic overflow.
pub open spec fn consume_ok(a: Individual, available_food: u64, available_water: u64) -> bool {
    let b = spec_consume(a, available_food, available_water);
    (a.is_alive && b.hunger < 30 && b.thirst < 30) ==> a.health < 255
}

/// Whether the agent wants to leave its partition.
pub open spec fn spec_wants_to_move(a: Individual, current_food: u64, current_water: u64) -> bool {
    if !a.is_alive {
        false
    } else if (a.hunger > 50 && current_food < 50) || (a.thirst > 50 && current_water < 50) {
        true
    } else {
        a.id.0 % 100 < 100 - a.mobility
    }
}

pub open spec fn spec_can_reproduce(a: Individual) -> bool {
    &&& a.is_alive
    &&& a.age > 1000
    &&& a.reproduction_cooldown == 0
    &&& a.health > 60
    &&& a.hunger < 50
    &&& a.thirst < 50
}

/// The life rules of one tick: a dead agent stays as it is; a living one
/// grows a tick older, its hunger and thirst rise by its metabolism over 20
/// and over 15 (at least 1, capped at 255), its reproduction cooldown counts
/// down to zero, it loses 2 health when hungry (80 or more), 3 when thirsty
/// and 1 in the last quarter of its lifespan (not below zero), and it stays
/// alive exactly when its health is above zero and its new age is below its
/// lifespan.
pub proof fn lemma_update_needs_laws(a: Individual)
    requires
        update_needs_ok(a),
    ensures
        !a.is_alive ==> spec_update_needs(a) == a,
        a.is_alive ==> {
            let b = spec_update_needs(a);
            &&& b.age == a.age + 1
            &&& b.is_alive == (b.health > 0 && b.age < a.max_lifespan)
            &&& b.health <= a.health
            &&& a.health - b.health <= 6
            &&& b.hunger >= a.hunger && b.thirst >= a.thirst
            &&& b.hunger > a.hunger || b.hunger == 255
            &&& b.thirst > a.thirst || b.thirst == 255
            &&& b.id == a.id && b.partition_id == a.partition_id && b.max_lifespan == a.max_lifespan
            &&& b.mobility == a.mobility && b.metabolism == a.metabolism
            &&& b.hunger == min_int(a.hunger + max_int(a.metabolism as int / 20, 1), 255)
            &&& b.thirst == min_int(a.thirst + max_int(a.metabolism as int / 15, 1), 255)
            &&& b.reproduction_cooldown == (if a.reproduction_cooldown > 0 { a.reproduction_cooldown - 1 } else { 0 })
            &&& b.health == max_int(
                a.health - ((if b.hunger >= 80 { 2int } else { 0int }) + (if b.thirst >= 80 { 3int } else { 0int }) + (
                if b.age > a.max_lifespan * 3 / 4 { 1int } else { 0int })),
                0,
            )
        },
{
}

impl Individual {
    /// A new individual with drawn but bounded attributes.
    pub fn new(id: AgentId, partition_id: u64, rng: &mut DeterministicRng) -> (ind: Self)
        ensures
            ind == spec_new_individual(id, partition_id, old(rng)@),
            final(rng)@ == state_after(old(rng)@, new_individual_draws()),
    {
        let ghost s = rng@;
        let health_draw = rng.next_bounded(20);
        proof { reveal_with_fuel(state_after, 2); }
        let hunger_draw = rng.next_bounded(30);
        proof { lemma_state_after_step(s, 1); }
        let thirst_draw = rng.next_bounded(30);
        proof { lemma_state_after_step(s, 2); }
        let life_draw = rng.next_bounded(3000);
        proof { lemma_state_after_step(s, 3); }
        let cooldown_draw = rng.next_bounded(200);
        proof { lemma_state_after_step(s, 4); }
        let mobility_draw = rng.next_bounded(70);
        proof { lemma_state_after_step(s, 5); }
        let metabolism_draw = rng.next_bounded(40);
        proof { lemma_state_after_step(s, 6); }
        Individual {
            id,
            partition_id,
            health: 80 + health_draw as u8,
            hunger: hunger_draw as u8,
            thirst: thirst_draw as u8,
            age: 0,
            max_lifespan: 5000 + life_draw,
            reproduction_cooldown: 100 + cooldown_draw as u32,
            is_alive: true,
            mobility: 30 + mobility_draw as u8,
            metabolism: 80 + metabolism_draw as u8,
        }
    }

    /// A newborn: higher initial needs, a longer cooldown, and the parent's
    /// metabolism shifted by a draw in `[-5, 4]` and clamped into `[50, 150]`.
    pub fn newborn(id: AgentId, partition_id: u64, parent_metabolism: u8, rng: &mut DeterministicRng) -> (ind: Self)
        ensures
            ind == spec_newborn(id, partition_id, parent_metabolism, old(rng)@),
            final(rng)@ == state_after(old(rng)@, newborn_draws()),
    {
        let ghost s = rng@;
        let mut individual = Self::new(id, partition_id, rng);
        let hunger_draw = rng.next_bounded(20);
        proof { lemma_state_after_step(s, 7); }
        let thirst_draw = rng.next_bounded(20);
        proof { lemma_state_after_step(s, 8); }
        let cooldown_draw = rng.next_bounded(500);
        proof { lemma_state_after_step(s, 9); }
        let variation_draw = rng.next_bounded(10);
        proof { lemma_state_after_step(s, 10); }
        individual.hunger = 20 + hunger_draw as u8;
        individual.thirst = 20 + thirst_draw as u8;
        individual.reproduction_cooldown = 500 + cooldown_draw as u32;
        let variation: i16 = variation_draw as i16 - 5;
        let shifted: i16 = parent_metabolism as i16 + variation;
        let clamped: i16 = if shifted < 50 {
            50
        } else if shifted > 150 {
            150
        } else {
            shifted
        };
        individual.metabolism = clamped as u8;
        individual
    }

    /// One tick of metabolism: needs rise, age increments, the cooldown counts
    /// down, health suffers from hunger, thirst and old age, and the agent dies
    /// at zero health or at the end of its lifespan.
    pub fn update_needs(&mut self)
        requires
            update_needs_ok(*old(self)),
        ensures
            *final(self) == spec_update_needs(*old(self)),
            !old(self).is_alive ==> *final(self) == *old(self),
            old(self).is_alive ==> {
                &&& final(self).age == old(self).age + 1
                &&& final(self).is_alive == (final(self).health > 0 && final(self).age < old(self).max_lifespan)
                &&& final(self).health <= old(self).health
                &&& old(self).health - final(self).health <= 6
                &&& final(self).hunger >= old(self).hunger && final(self).thirst >= old(self).thirst
            },
    {
        proof {
            lemma_update_needs_laws(*self);
        }
        if !self.is_alive {
            return;
        }
        let hunger_increase: u8 = if self.metabolism / 20 >= 1 { self.metabolism / 20 } else { 1 };
        self.hunger = self.hunger.saturating_add(hunger_increase);
        let thirst_increase: u8 = if self.metabolism / 15 >= 1 { self.metabolism / 15 } else { 1 };
        self.thirst = self.thirst.saturating_add(thirst_increase);
        self.age = self.age + 1;
        if self.reproduction_cooldown > 0 {
            self.reproduction_cooldown = self.reproduction_cooldown - 1;
        }
        if self.hunger >= 80 {
            self.health = self.health.saturating_sub(2);
        }
        if self.thirst >= 80 {
            self.health = self.health.saturating_sub(3);
        }
        if self.age > self.max_lifespan * 3 / 4 {
            self.health = self.health.saturating_sub(1);
        }
        if self.health == 0 || self.age >= self.max_lifespan {
            self.is_alive = false;
        }
    }

    /// Eats and drinks from a partition; returns `(food_consumed, water_consumed)`.
    pub fn consume(&mut self, available_food: u64, available_water: u64) -> (r: (u64, u64))
        requires
            consume_ok(*old(self), available_food, available_water),
        ensures
            *final(self) == spec_consume(*old(self), available_food, available_water),
            r == (food_taken(*old(self), available_food), water_taken(*old(self), available_water)),
    {
        if !self.is_alive {
            return (0, 0);
        }
        let food_need: u64 = if self.metabolism / 10 >= 1 { (self.metabolism / 10) as u64 } else { 1 };
        let water_need: u64 = if self.metabolism / 8 >= 1 { (self.metabolism / 8) as u64 } else { 1 };
        let food_consumed: u64 = if food_need <= available_food { food_need } else { available_food };
        let food_relief: u64 = if food_consumed * 10 <= 100 { food_consumed * 10 } else { 100 };
        self.hunger = self.hunger.saturating_sub(food_relief as u8);
        let water_consumed: u64 = if water_need <= available_water { water_need } else { available_water };
        let water_relief: u64 = if water_consumed * 10 <= 100 { water_consumed * 10 } else { 100 };
        self.thirst = self.thirst.saturating_sub(water_relief as u8);
        if self.hunger < 30 && self.thirst < 30 {
            let h: u8 = self.health + 1;
            self.health = if h <= 100 { h } else { 100 };
        }
        (food_consumed, water_consumed)
    }

    /// Whether the agent wants to move: always when a need is high and the
    /// matching resource is scarce, otherwise by a mobility-dependent rule on its id.
    pub fn wants_to_move(&self, current_food: u64, current_water: u64) -> (r: bool)
        requires
            self.is_alive ==> self.mobility <= 100,
        ensures
            r == spec_wants_to_move(*self, current_food, current_water),
    {
        if !self.is_alive {
            return false;
        }
        let move_threshold: u8 = 100 - self.mobility;
        let hungry = self.hunger > 50;
        let thirsty = self.thirst > 50;
        if (hungry && current_food < 50) || (thirsty && current_water < 50) {
            return true;
        }
        self.id.0 % 100 < move_threshold as u64
    }

    pub fn move_to(&mut self, new_partition_id: u64)
        ensures
            *final(self) == (Individual { partition_id: new_partition_id, ..*old(self) }),
    {
        self.partition_id = new_partition_id;
    }

    pub fn can_reproduce(&self) -> (r: bool)
        ensures
            r == spec_can_reproduce(*self),
    {
        self.is_alive && self.age > 1000 && self.reproduction_cooldown == 0 && self.health > 60
            && self.hunger < 50 && self.thirst < 50
    }

    /// Resets the reproduction cooldown after giving birth.
    pub fn reproduce(&mut self)
        ensures
            *final(self) == (Individual { reproduction_cooldown: 1000, ..*old(self) }),
    {
        self.reproduction_cooldown = 500 + 500;
    }

    pub fn population_contribution(&self) -> (r: u64)
        ensures
            r == (if self.is_alive { 1u64 } else { 0u64 }),
    {
        if self.is_alive {
            1
        } else {
            0
        }
    }
}

/// The remains of a dead agent.
#[derive(Debug, Clone, Copy, PartialEq, Eq, Structural)]
pub struct Corpse {
    pub agent_id: AgentId,
    pub partition_id: u64,
    pub tick_created: u64,
    pub biomass: u32,
    pub disease_risk: u8,
    pub is_processed: bool,
}

pub open spec fn spec_new_corpse(agent_id: AgentId, partition_id: u64, tick: u64, health_at_death: u8) -> Corpse {
    Corpse {
        agent_id,
        partition_id,
        tick_created: tick,
        biomass: max_int(health_at_death as int * 10, 100) as u32,
        disease_risk: 20,
        is_processed: false,
    }
}

pub open spec fn corpse_age(c: Corpse, current_tick: u64) -> u64 {
    if current_tick >= c.tick_created {
        (current_tick - c.tick_created) as u64
    } else {
        0
    }
}

/// Waste a corpse yields at `current_tick`: its biomass, falling after 100 ticks
/// by a tenth of the age but never below 10.
pub open spec fn spec_decomposition_waste(c: Corpse, current_tick: u64) -> u32 {
    let age = corpse_age(c, current_tick);
    if age > 100 {
        let dec = (age / 10) as u32;
        let left = if c.biomass >= dec { (c.biomass - dec) as u32 } else { 0u32 };
        max_int(left as int, 10) as u32
    } else {
        c.biomass
    }
}

pub open spec fn spec_fully_decomposed(c: Corpse, current_tick: u64) -> bool {
    corpse_age(c, current_tick) > 500
}

impl Corpse {
    pub fn new(agent_id: AgentId, partition_id: u64, tick: u64, health_at_death: u8) -> (c: Self)
        ensures
            c == spec_new_corpse(agent_id, partition_id, tick, health_at_death),
    {
        let raw: u32 = health_at_death as u32 * 10;
        Corpse {
            agent_id,
            partition_id,
            tick_created: tick,
            biomass: if raw >= 100 { raw } else { 100 },
            disease_risk: 20,
            is_processed: false,
        }
    }

    pub fn decomposition_waste(&self, current_tick: u64) -> (w: u32)
        ensures
            w == spec_decomposition_waste(*self, current_tick),
    {
        let age = current_tick.saturating_sub(self.tick_created);
        if age > 100 {
            let left = self.biomass.saturating_sub((age / 10) as u32);
            if left >= 10 { left } else { 10 }
        } else {
            self.biomass
        }
    }

    pub fn is_fully_decomposed(&self, current_tick: u64) -> (r: bool)
        ensures
            r == spec_fully_decomposed(*self, current_tick),
    {
        let age = current_tick.saturating_sub(self.tick_created);
        age > 500
    }
}

/// The generator state after `initialize` has made `n` agents from state `s`.
pub open spec fn init_state(n: nat, partition_count: u64, s: u64) -> u64
    decreases n,
{
    if n == 0 {
        s
    } else {
        let st = init_state((n - 1) as nat, partition_count, s);
        state_after(bounded_state(st, partition_count), new_individual_draws())
    }
}

/// The `n` agents that `initialize` makes from state `s`, with ids from
/// `first` on: each draws its partition, then its attributes.
pub open spec fn init_agents(n: nat, partition_count: u64, s: u64, first: u64) -> Seq<Individual>
    decreases n,
{
    if n == 0 {
        Seq::empty()
    } else {
        let st = init_state((n - 1) as nat, partition_count, s);
        init_agents((n - 1) as nat, partition_count, s, first).push(
            spec_new_individual(
                AgentId((first + n - 1) as u64),
                bounded_value(st, partition_count),
                bounded_state(st, partition_count),
            ),
        )
    }
}

pub open spec fn living_agents(s: Seq<Individual>) -> Seq<Individual>
    decreases s.len(),
{
    if s.len() == 0 {
        Seq::empty()
    } else if s.last().is_alive {
        living_agents(s.drop_last()).push(s.last())
    } else {
        living_agents(s.drop_last())
    }
}

/// Corpses of the dead agents of `s`, in order, created at `tick`.
pub open spec fn corpses_of_dead(s: Seq<Individual>, tick: u64) -> Seq<Corpse>
    decreases s.len(),
{
    if s.len() == 0 {
        Seq::empty()
    } else if !s.last().is_alive {
        corpses_of_dead(s.drop_last(), tick).push(
            spec_new_corpse(s.last().id, s.last().partition_id, tick, s.last().health),
        )
    } else {
        corpses_of_dead(s.drop_last(), tick)
    }
}

pub open spec fn agents_in(s: Seq<Individual>, partition_id: u64) -> Seq<Individual>
    decreases s.len(),
{
    if s.len() == 0 {
        Seq::empty()
    } else if s.last().partition_id == partition_id {
        agents_in(s.drop_last(), partition_id).push(s.last())
    } else {
        agents_in(s.drop_last(), partition_id)
    }
}

pub open spec fn corpses_in(s: Seq<Corpse>, partition_id: u64) -> Seq<Corpse>
    decreases s.len(),
{
    if s.len() == 0 {
        Seq::empty()
    } else if s.last().partition_id == partition_id {
        corpses_in(s.drop_last(), partition_id).push(s.last())
    } else {
        corpses_in(s.drop_last(), partition_id)
    }
}

/// Total decomposition waste of a list of corpses at `tick`.
pub open spec fn waste_sum(s: Seq<Corpse>, tick: u64) -> nat
    decreases s.len(),
{
    if s.len() == 0 { 0 } else { waste_sum(s.drop_last(), tick) + spec_decomposition_waste(s.last(), tick) as nat }
}

/// Total disease risk of the unprocessed corpses of a list.
pub open spec fn disease_sum(s: Seq<Corpse>) -> nat
    decreases s.len(),
{
    if s.len() == 0 {
        0
    } else {
        disease_sum(s.drop_last()) + if s.last().is_processed { 0 } else { s.last().disease_risk as nat }
    }
}

/// The corpses not yet fully decomposed at `tick`, in order.
pub open spec fn corpses_kept(s: Seq<Corpse>, tick: u64) -> Seq<Corpse>
    decreases s.len(),
{
    if s.len() == 0 {
        Seq::empty()
    } else if !spec_fully_decomposed(s.last(), tick) {
        corpses_kept(s.drop_last(), tick).push(s.last())
    } else {
        corpses_kept(s.drop_last(), tick)
    }
}

/// The corpses fully decomposed at `tick`, in order.
pub open spec fn corpses_gone(s: Seq<Corpse>, tick: u64) -> Seq<Corpse>
    decreases s.len(),
{
    if s.len() == 0 {
        Seq::empty()
    } else if spec_fully_decomposed(s.last(), tick) {
        corpses_gone(s.drop_last(), tick).push(s.last())
    } else {
        corpses_gone(s.drop_last(), tick)
    }
}

pub open spec fn sum_age(s: Seq<Individual>) -> nat
    decreases s.len(),
{
    if s.len() == 0 { 0 } else { sum_age(s.drop_last()) + s.last().age as nat }
}

pub open spec fn sum_health(s: Seq<Individual>) -> nat
    decreases s.len(),
{
    if s.len() == 0 { 0 } else { sum_health(s.drop_last()) + s.last().health as nat }
}

pub open spec fn sum_hunger(s: Seq<Individual>) -> nat
    decreases s.len(),
{
    if s.len() == 0 { 0 } else { sum_hunger(s.drop_last()) + s.last().hunger as nat }
}

pub open spec fn sum_thirst(s: Seq<Individual>) -> nat
    decreases s.len(),
{
    if s.len() == 0 { 0 } else { sum_thirst(s.drop_last()) + s.last().thirst as nat }
}

/// Statistics about the living agents.
#[derive(Debug, Clone, Copy, PartialEq, Eq, Structural)]
pub struct PopulationStatistics {
    pub total_population: u64,
    pub average_age: u64,
    pub average_health: u8,
    pub average_hunger: u8,
    pub average_thirst: u8,
}

impl Default for PopulationStatistics {
    fn default() -> (r: Self)
        ensures
            r == (PopulationStatistics {
                total_population: 0,
                average_age: 0,
                average_health: 0,
                average_hunger: 0,
                average_thirst: 0,
            }),
    {
        PopulationStatistics {
            total_population: 0,
            average_age: 0,
            average_health: 0,
            average_hunger: 0,
            average_thirst: 0,
        }
    }
}

/// Statistics about the collectives of a population.
#[derive(Debug, Clone, Copy, PartialEq, Eq, Structural)]
pub struct CollectivePopulationStatistics {
    pub total_collectives: u64,
    pub total_collective_members: u64,
    pub average_collective_size: u64,
    pub average_legitimacy: u8,
    pub average_factionalism: u8,
}

impl Default for CollectivePopulationStatistics {
    fn default() -> (r: Self)
        ensures
            r == (CollectivePopulationStatistics {
                total_collectives: 0,
                total_collective_members: 0,
                average_collective_size: 0,
                average_legitimacy: 0,
                average_factionalism: 0,
            }),
    {
        CollectivePopulationStatistics {
            total_collectives: 0,
            total_collective_members: 0,
            average_collective_size: 0,
            average_legitimacy: 0,
            average_factionalism: 0,
        }
    }
}

/// Count of the living agents and the averages (rounded down) of their age,
/// health, hunger and thirst.
pub open spec fn spec_population_statistics(s: Seq<Individual>) -> PopulationStatistics {
    let l = living_agents(s);
    let n = l.len();
    if n == 0 {
        PopulationStatistics {
            total_population: 0,
            average_age: 0,
            average_health: 0,
            average_hunger: 0,
            average_thirst: 0,
        }
    } else {
        PopulationStatistics {
            total_population: n as u64,
            average_age: (sum_age(l) / n) as u64,
            average_health: (sum_health(l) / n) as u8,
            average_hunger: (sum_hunger(l) / n) as u8,
            average_thirst: (sum_thirst(l) / n) as u8,
        }
    }
}

/// The sums that `statistics` takes fit their types.
pub open spec fn population_statistics_ok(s: Seq<Individual>) -> bool {
    let l = living_agents(s);
    l.len() > 0 ==> {
        &&& sum_age(l) <= u64::MAX
        &&& sum_health(l) <= u32::MAX
        &&& sum_hunger(l) <= u32::MAX
        &&& sum_thirst(l) <= u32::MAX
    }
}

proof fn lemma_population_sums_prefix(s: Seq<Individual>, n: int)
    requires
        0 <= n <= s.len(),
    ensures
        sum_age(s.take(n)) <= sum_age(s),
        sum_health(s.take(n)) <= sum_health(s),
        sum_hunger(s.take(n)) <= sum_hunger(s),
        sum_thirst(s.take(n)) <= sum_thirst(s),
    decreases s.len(),
{
    if n < s.len() {
        assert(s.drop_last().take(n) =~= s.take(n));
        lemma_population_sums_prefix(s.drop_last(), n);
    } else {
        assert(s.take(n) =~= s);
    }
}

proof fn lemma_corpse_sums_prefix(s: Seq<Corpse>, tick: u64, n: int)
    requires
        0 <= n <= s.len(),
    ensures
        waste_sum(s.take(n), tick) <= waste_sum(s, tick),
        disease_sum(s.take(n)) <= disease_sum(s),
    decreases s.len(),
{
    if n < s.len() {
        assert(s.drop_last().take(n) =~= s.take(n));
        lemma_corpse_sums_prefix(s.drop_last(), tick, n);
    } else {
        assert(s.take(n) =~= s);
    }
}

/// All agents of the simulation, with their social network, collectives,
/// animals and corpses.
#[derive(Debug, Clone)]
pub struct AgentPopulation {
    next_id: AgentId,
    agents: Vec<Individual>,
    pub social_network: SocialNetwork,
    pub collective_registry: CollectiveRegistry,
    pub animal_population: AnimalPopulation,
    pub corpses: Vec<Corpse>,
}

impl AgentPopulation {
    /// The agents, in order.
    pub closed spec fn agents_view(&self) -> Seq<Individual> {
        self.agents@
    }

    /// The id the next agent gets.
    pub closed spec fn next_agent_id(&self) -> u64 {
        self.next_id.0
    }

    pub closed spec fn social_view(&self) -> SocialNetwork {
        self.social_network
    }

    pub closed spec fn registry_view(&self) -> CollectiveRegistry {
        self.collective_registry
    }

    pub closed spec fn animals_view(&self) -> AnimalPopulation {
        self.animal_population
    }

    pub closed spec fn corpses_view(&self) -> Seq<Corpse> {
        self.corpses@
    }

    /// An empty population whose first agent id is 0.
    pub fn new() -> (p: Self)
        ensures
            p.agents_view() == Seq::<Individual>::empty(),
            p.next_agent_id() == 0,
            p.social_view()@ == Seq::<crate::social::TieEntry>::empty(),
            p.registry_view()@ == Seq::<crate::collective::RegistryEntry>::empty(),
            p.registry_view().next_collective_id() == 1,
            p.social_view().wf(),
            p.animals_view()@ == Seq::<crate::animals::Animal>::empty(),
            p.animals_view().next_animal_id() == 1,
            p.corpses_view() == Seq::<Corpse>::empty(),
    {
        AgentPopulation {
            next_id: AgentId(0),
            agents: Vec::new(),
            social_network: SocialNetwork::new(),
            collective_registry: CollectiveRegistry::new(),
            animal_population: AnimalPopulation::new(),
            corpses: Vec::new(),
        }
    }

    /// Appends `count` agents made from a generator seeded with `seed`: each
    /// draws its partition below `partition_count`, then its attributes.
    pub fn initialize(&mut self, count: usize, partition_count: u64, seed: u64)
        requires
            old(self).next_agent_id() + count <= u64::MAX,
        ensures
            final(self).agents_view() == old(self).agents_view() + init_agents(count as nat, partition_count, seed, old(self).next_agent_id()),
            final(self).next_agent_id() == old(self).next_agent_id() + count,
            final(self).social_view() == old(self).social_view(),
            final(self).registry_view() == old(self).registry_view(),
            final(self).animals_view() == old(self).animals_view(),
            final(self).corpses_view() == old(self).corpses_view(),
    {
        let mut rng = DeterministicRng::from_u64(seed);
        let ghost a0 = self.agents@;
        let ghost first = self.next_id.0;
        let mut i: usize = 0;
        while i < count
            invariant
                0 <= i <= count,
                first + count <= u64::MAX,
                self.next_id.0 == first + i,
                rng@ == init_state(i as nat, partition_count, seed),
                self.agents@ == a0 + init_agents(i as nat, partition_count, seed, first),
                self.social_network == old(self).social_view(),
                self.collective_registry == old(self).registry_view(),
                self.animal_population == old(self).animals_view(),
                self.corpses@ == old(self).corpses_view(),
            decreases count - i,
        {
            let partition_id = rng.next_bounded(partition_count);
            let id = self.next_id.next();
            let agent = Individual::new(id, partition_id, &mut rng);
            self.agents.push(agent);
            proof {
                assert(self.agents@ =~= a0 + init_agents((i + 1) as nat, partition_count, seed, first));
            }
            i = i + 1;
        }
    }

    /// All agents, in order.
    pub fn agents(&self) -> (r: &[Individual])
        ensures
            r@ == self.agents_view(),
    {
        self.agents.as_slice()
    }

    /// All agents, to change in place.
    pub fn agents_mut(&mut self) -> (r: &mut [Individual])
        ensures
            r@ == old(self).agents_view(),
            final(self).agents_view() == final(r)@,
            final(self).next_agent_id() == old(self).next_agent_id(),
            final(self).social_view() == old(self).social_view(),
            final(self).registry_view() == old(self).registry_view(),
            final(self).animals_view() == old(self).animals_view(),
            final(self).corpses_view() == old(self).corpses_view(),
    {
        self.agents.as_mut_slice()
    }

    /// The agents in a partition, in order.
    pub fn agents_in_partition(&self, partition_id: u64) -> (r: Vec<&Individual>)
        ensures
            r@.len() == agents_in(self.agents_view(), partition_id).len(),
            forall|i: int| 0 <= i < r@.len() ==> *(#[trigger] r@[i]) == agents_in(self.agents_view(), partition_id)[i],
    {
        let ghost s = self.agents@;
        let mut r: Vec<&Individual> = Vec::new();
        let mut i: usize = 0;
        while i < self.agents.len()
            invariant
                s == self.agents@,
                0 <= i <= s.len(),
                r@.len() == agents_in(s.take(i as int), partition_id).len(),
                forall|j: int| 0 <= j < r@.len() ==> *(#[trigger] r@[j]) == agents_in(s.take(i as int), partition_id)[j],
            decreases s.len() - i,
        {
            proof {
                assert(s.take(i + 1).drop_last() =~= s.take(i as int));
            }
            if self.agents[i].partition_id == partition_id {
                r.push(&self.agents[i]);
            }
            i = i + 1;
        }
        proof {
            assert(s.take(s.len() as int) =~= s);
        }
        r
    }

    /// Number of living agents.
    pub fn living_count(&self) -> (n: usize)
        ensures
            n == living_agents(self.agents_view()).len(),
    {
        let ghost s = self.agents@;
        let mut n: usize = 0;
        let mut i: usize = 0;
        while i < self.agents.len()
            invariant
                s == self.agents@,
                0 <= i <= s.len(),
                n == living_agents(s.take(i as int)).len(),
                n <= i,
            decreases s.len() - i,
        {
            proof {
                assert(s.take(i + 1).drop_last() =~= s.take(i as int));
            }
            if self.agents[i].is_alive {
                n = n + 1;
            }
            i = i + 1;
        }
        proof {
            assert(s.take(s.len() as int) =~= s);
        }
        n
    }

    /// Number of living agents in a partition.
    pub fn living_in_partition(&self, partition_id: u64) -> (n: usize)
        ensures
            n == living_agents(agents_in(self.agents_view(), partition_id)).len(),
    {
        let ghost s = self.agents@;
        let mut n: usize = 0;
        let mut i: usize = 0;
        while i < self.agents.len()
            invariant
                s == self.agents@,
                0 <= i <= s.len(),
                n == living_agents(agents_in(s.take(i as int), partition_id)).len(),
                n <= i,
            decreases s.len() - i,
        {
            proof {
                assert(s.take(i + 1).drop_last() =~= s.take(i as int));
            }
            proof {
                let t = agents_in(s.take(i as int), partition_id);
                assert(t.push(s[i as int]).drop_last() =~= t);
            }
            if self.agents[i].is_alive && self.agents[i].partition_id == partition_id {
                n = n + 1;
            }
            i = i + 1;
        }
        proof {
            assert(s.take(s.len() as int) =~= s);
        }
        n
    }

    /// Adds an agent (a birth).
    pub fn add_agent(&mut self, agent: Individual)
        ensures
            final(self).agents_view() == old(self).agents_view().push(agent),
            final(self).next_agent_id() == old(self).next_agent_id(),
            final(self).social_view() == old(self).social_view(),
            final(self).registry_view() == old(self).registry_view(),
            final(self).animals_view() == old(self).animals_view(),
            final(self).corpses_view() == old(self).corpses_view(),
    {
        self.agents.push(agent);
    }

    /// Makes a newborn under the next id from a generator seeded with `seed`,
    /// adds it, and returns it.
    pub fn spawn_newborn(&mut self, partition_id: u64, parent_metabolism: u8, seed: u64) -> (agent: Individual)
        requires
            old(self).next_agent_id() < u64::MAX,
        ensures
            agent == spec_newborn(AgentId(old(self).next_agent_id()), partition_id, parent_metabolism, seed),
            final(self).agents_view() == old(self).agents_view().push(agent),
            final(self).next_agent_id() == old(self).next_agent_id() + 1,
            final(self).social_view() == old(self).social_view(),
            final(self).registry_view() == old(self).registry_view(),
            final(self).animals_view() == old(self).animals_view(),
            final(self).corpses_view() == old(self).corpses_view(),
    {
        let mut rng = DeterministicRng::from_u64(seed);
        let id = self.next_id.next();
        let agent = Individual::newborn(id, partition_id, parent_metabolism, &mut rng);
        self.agents.push(agent);
        agent
    }
}

/// The 64-bit finalizer that the digest mixes with.
pub open spec fn spec_mix64(x: u64) -> u64 {
    let a = x ^ (x >> 33u64);
    let b = a.wrapping_mul(0xff51_afd7_ed55_8ccdu64);
    let c = b ^ (b >> 33u64);
    let d = c.wrapping_mul(0xc4ce_b9fe_1a85_ec53u64);
    d ^ (d >> 33u64)
}

/// `x` rotated left by `k` bits, for `0 < k < 64`.
pub open spec fn spec_rotl(x: u64, k: u64) -> u64 {
    (x << k) | (x >> (64 - k) as u64)
}

fn mix64(x: u64) -> (r: u64)
    ensures
        r == spec_mix64(x),
{
    let a = x ^ (x >> 33u64);
    let b = a.wrapping_mul(0xff51_afd7_ed55_8ccdu64);
    let c = b ^ (b >> 33u64);
    let d = c.wrapping_mul(0xc4ce_b9fe_1a85_ec53u64);
    d ^ (d >> 33u64)
}

fn rotl(x: u64, k: u64) -> (r: u64)
    requires
        0 < k < 64,
    ensures
        r == spec_rotl(x, k),
{
    (x << k) | (x >> (64 - k))
}

/// The digest state after one agent.
pub open spec fn digest_agent(h0: u64, a: Individual) -> u64 {
    let h1 = spec_mix64(h0 ^ a.id.0);
    let h2 = spec_mix64(h1 ^ spec_rotl(a.partition_id, 7));
    let h3 = spec_mix64(h2 ^ (a.health as u64));
    let h4 = spec_mix64(h3 ^ ((a.hunger as u64) << 8u64));
    let h5 = spec_mix64(h4 ^ ((a.thirst as u64) << 16u64));
    let h6 = spec_mix64(h5 ^ spec_rotl(a.age, 11));
    let h7 = spec_mix64(h6 ^ spec_rotl(a.max_lifespan, 13));
    let h8 = spec_mix64(h7 ^ ((a.reproduction_cooldown as u64) << 21u64));
    let h9 = spec_mix64(h8 ^ (if a.is_alive { 1u64 } else { 0u64 }));
    let h10 = spec_mix64(h9 ^ ((a.mobility as u64) << 29u64));
    spec_mix64(h10 ^ ((a.metabolism as u64) << 37u64))
}

pub open spec fn digest_agents(h: u64, s: Seq<Individual>) -> u64
    decreases s.len(),
{
    if s.len() == 0 { h } else { digest_agent(digest_agents(h, s.drop_last()), s.last()) }
}

pub open spec fn digest_corpse(h0: u64, c: Corpse) -> u64 {
    let h1 = spec_mix64(h0 ^ c.agent_id.0);
    let h2 = spec_mix64(h1 ^ spec_rotl(c.partition_id, 3));
    spec_mix64(h2 ^ spec_rotl(c.biomass as u64, 7))
}

pub open spec fn digest_corpses(h: u64, s: Seq<Corpse>) -> u64
    decreases s.len(),
{
    if s.len() == 0 { h } else { digest_corpse(digest_corpses(h, s.drop_last()), s.last()) }
}

/// The digest after the agents: the network, collective and animal
/// statistics, then the corpse count and each corpse, are mixed in.
pub open spec fn digest_tail(
    h0: u64,
    st: SocialNetworkStatistics,
    cs: CollectiveStatistics,
    an: AnimalPopulationStatistics,
    corpses: Seq<Corpse>,
) -> u64 {
    let h1 = spec_mix64(h0 ^ st.total_ties);
    let h2 = spec_mix64(h1 ^ spec_rotl(st.average_trust as u64, 19));
    let h3 = spec_mix64(h2 ^ spec_rotl(st.average_grievance as u64, 23));
    let h4 = spec_mix64(h3 ^ spec_rotl(st.total_cooperation, 27));
    let h5 = spec_mix64(h4 ^ spec_rotl(st.total_conflict, 31));
    let h6 = spec_mix64(h5 ^ spec_rotl(cs.total_collectives, 35));
    let h7 = spec_mix64(h6 ^ spec_rotl(cs.total_members, 39));
    let h8 = spec_mix64(h7 ^ spec_rotl(cs.average_legitimacy as u64, 43));
    let h9 = spec_mix64(h8 ^ spec_rotl(cs.average_factionalism as u64, 47));
    let h10 = spec_mix64(h9 ^ spec_rotl(an.total_animals, 51));
    let h11 = spec_mix64(h10 ^ spec_rotl(an.average_health as u64, 55));
    let h12 = spec_mix64(h11 ^ spec_rotl(an.average_nutrition as u64, 59));
    let h13 = spec_mix64(h12 ^ spec_rotl(corpses.len() as u64, 63));
    digest_corpses(h13, corpses)
}

impl AgentPopulation {
    /// Turns each dead agent into a corpse at `tick`: the dead leave the
    /// population, the corpses are appended to it and returned, in order.
    pub fn process_dead_into_corpses(&mut self, current_tick: u64) -> (r: Vec<Corpse>)
        ensures
            r@ == corpses_of_dead(old(self).agents_view(), current_tick),
            final(self).agents_view() == living_agents(old(self).agents_view()),
            final(self).corpses_view() == old(self).corpses_view() + r@,
            final(self).next_agent_id() == old(self).next_agent_id(),
            final(self).social_view() == old(self).social_view(),
            final(self).registry_view() == old(self).registry_view(),
            final(self).animals_view() == old(self).animals_view(),
    {
        let ghost s = self.agents@;
        let mut new_corpses: Vec<Corpse> = Vec::new();
        let mut kept: Vec<Individual> = Vec::new();
        let mut i: usize = 0;
        while i < self.agents.len()
            invariant
                s == self.agents@,
                0 <= i <= s.len(),
                new_corpses@ == corpses_of_dead(s.take(i as int), current_tick),
                kept@ == living_agents(s.take(i as int)),
            decreases s.len() - i,
        {
            proof {
                assert(s.take(i + 1).drop_last() =~= s.take(i as int));
            }
            let a = self.agents[i];
            if !a.is_alive {
                new_corpses.push(Corpse::new(a.id, a.partition_id, current_tick, a.health));
            } else {
                kept.push(a);
            }
            i = i + 1;
        }
        proof {
            assert(s.take(s.len() as int) =~= s);
        }
        self.agents = kept;
        let ghost c0 = self.corpses@;
        let ghost before = *self;
        let mut j: usize = 0;
        while j < new_corpses.len()
            invariant
                *self == (AgentPopulation { corpses: self.corpses, ..before }),
                0 <= j <= new_corpses@.len(),
                self.corpses@ == c0 + new_corpses@.take(j as int),
            decreases new_corpses@.len() - j,
        {
            self.corpses.push(new_corpses[j]);
            proof {
                assert(self.corpses@ =~= c0 + new_corpses@.take(j + 1));
            }
            j = j + 1;
        }
        proof {
            assert(new_corpses@.take(new_corpses@.len() as int) =~= new_corpses@);
        }
        new_corpses
    }

    /// The corpses in a partition, in order.
    pub fn corpses_in_partition(&self, partition_id: u64) -> (r: Vec<&Corpse>)
        ensures
            r@.len() == corpses_in(self.corpses_view(), partition_id).len(),
            forall|i: int| 0 <= i < r@.len() ==> *(#[trigger] r@[i]) == corpses_in(self.corpses_view(), partition_id)[i],
    {
        let ghost s = self.corpses@;
        let mut r: Vec<&Corpse> = Vec::new();
        let mut i: usize = 0;
        while i < self.corpses.len()
            invariant
                s == self.corpses@,
                0 <= i <= s.len(),
                r@.len() == corpses_in(s.take(i as int), partition_id).len(),
                forall|j: int| 0 <= j < r@.len() ==> *(#[trigger] r@[j]) == corpses_in(s.take(i as int), partition_id)[j],
            decreases s.len() - i,
        {
            proof {
                assert(s.take(i + 1).drop_last() =~= s.take(i as int));
            }
            if self.corpses[i].partition_id == partition_id {
                r.push(&self.corpses[i]);
            }
            i = i + 1;
        }
        proof {
            assert(s.take(s.len() as int) =~= s);
        }
        r
    }

    /// Total decomposition waste of the corpses in a partition.
    pub fn corpse_waste_in_partition(&self, partition_id: u64, current_tick: u64) -> (w: u32)
        requires
            waste_sum(corpses_in(self.corpses_view(), partition_id), current_tick) <= u32::MAX,
        ensures
            w == waste_sum(corpses_in(self.corpses_view(), partition_id), current_tick),
    {
        let inp = self.corpses_in_partition(partition_id);
        let ghost c = corpses_in(self.corpses@, partition_id);
        let mut w: u32 = 0;
        let mut i: usize = 0;
        while i < inp.len()
            invariant
                inp@.len() == c.len(),
                forall|j: int| 0 <= j < c.len() ==> *(#[trigger] inp@[j]) == c[j],
                waste_sum(c, current_tick) <= u32::MAX,
                0 <= i <= c.len(),
                w == waste_sum(c.take(i as int), current_tick),
            decreases c.len() - i,
        {
            proof {
                assert(c.take(i + 1).drop_last() =~= c.take(i as int));
                lemma_corpse_sums_prefix(c, current_tick, i + 1);
            }
            w = w + inp[i].decomposition_waste(current_tick);
            i = i + 1;
        }
        proof {
            assert(c.take(c.len() as int) =~= c);
        }
        w
    }

    /// Total disease risk of the unprocessed corpses in a partition.
    pub fn corpse_disease_pressure(&self, partition_id: u64) -> (d: u32)
        requires
            disease_sum(corpses_in(self.corpses_view(), partition_id)) <= u32::MAX,
        ensures
            d == disease_sum(corpses_in(self.corpses_view(), partition_id)),
    {
        let inp = self.corpses_in_partition(partition_id);
        let ghost c = corpses_in(self.corpses@, partition_id);
        let mut d: u32 = 0;
        let mut i: usize = 0;
        while i < inp.len()
            invariant
                inp@.len() == c.len(),
                forall|j: int| 0 <= j < c.len() ==> *(#[trigger] inp@[j]) == c[j],
                disease_sum(c) <= u32::MAX,
                0 <= i <= c.len(),
                d == disease_sum(c.take(i as int)),
            decreases c.len() - i,
        {
            proof {
                assert(c.take(i + 1).drop_last() =~= c.take(i as int));
                lemma_corpse_sums_prefix(c, 0, i + 1);
            }
            if !inp[i].is_processed {
                d = d + inp[i].disease_risk as u32;
            }
            i = i + 1;
        }
        proof {
            assert(c.take(c.len() as int) =~= c);
        }
        d
    }

    /// Removes the fully decomposed corpses and returns them, in order.
    pub fn cleanup_decomposed_corpses(&mut self, current_tick: u64) -> (removed: Vec<Corpse>)
        ensures
            removed@ == corpses_gone(old(self).corpses_view(), current_tick),
            final(self).corpses_view() == corpses_kept(old(self).corpses_view(), current_tick),
            final(self).agents_view() == old(self).agents_view(),
            final(self).next_agent_id() == old(self).next_agent_id(),
            final(self).social_view() == old(self).social_view(),
            final(self).registry_view() == old(self).registry_view(),
            final(self).animals_view() == old(self).animals_view(),
    {
        let ghost s = self.corpses@;
        let mut removed: Vec<Corpse> = Vec::new();
        let mut kept: Vec<Corpse> = Vec::new();
        let mut i: usize = 0;
        while i < self.corpses.len()
            invariant
                s == self.corpses@,
                0 <= i <= s.len(),
                removed@ == corpses_gone(s.take(i as int), current_tick),
                kept@ == corpses_kept(s.take(i as int), current_tick),
            decreases s.len() - i,
        {
            proof {
                assert(s.take(i + 1).drop_last() =~= s.take(i as int));
            }
            let c = self.corpses[i];
            if c.is_fully_decomposed(current_tick) {
                removed.push(c);
            } else {
                kept.push(c);
            }
            i = i + 1;
        }
        proof {
            assert(s.take(s.len() as int) =~= s);
        }
        self.corpses = kept;
        removed
    }

    /// Removes the dead agents at once, without leaving corpses.
    pub fn cleanup_dead(&mut self)
        ensures
            final(self).agents_view() == living_agents(old(self).agents_view()),
            final(self).corpses_view() == old(self).corpses_view(),
            final(self).next_agent_id() == old(self).next_agent_id(),
            final(self).social_view() == old(self).social_view(),
            final(self).registry_view() == old(self).registry_view(),
            final(self).animals_view() == old(self).animals_view(),
    {
        let ghost s = self.agents@;
        let mut kept: Vec<Individual> = Vec::new();
        let mut i: usize = 0;
        while i < self.agents.len()
            invariant
                s == self.agents@,
                0 <= i <= s.len(),
                kept@ == living_agents(s.take(i as int)),
            decreases s.len() - i,
        {
            proof {
                assert(s.take(i + 1).drop_last() =~= s.take(i as int));
            }
            if self.agents[i].is_alive {
                kept.push(self.agents[i]);
            }
            i = i + 1;
        }
        proof {
            assert(s.take(s.len() as int) =~= s);
        }
        self.agents = kept;
    }

    /// Count and averages of the living agents.
    pub fn statistics(&self) -> (st: PopulationStatistics)
        requires
            population_statistics_ok(self.agents_view()),
        ensures
            st == spec_population_statistics(self.agents_view()),
    {
        let ghost s = self.agents@;
        let mut living: Vec<Individual> = Vec::new();
        let mut i: usize = 0;
        while i < self.agents.len()
            invariant
                s == self.agents@,
                0 <= i <= s.len(),
                living@ == living_agents(s.take(i as int)),
            decreases s.len() - i,
        {
            proof {
                assert(s.take(i + 1).drop_last() =~= s.take(i as int));
            }
            if self.agents[i].is_alive {
                living.push(self.agents[i]);
            }
            i = i + 1;
        }
        proof {
            assert(s.take(s.len() as int) =~= s);
        }
        let count = living.len();
        if count == 0 {
            return PopulationStatistics::default();
        }
        let ghost l = living@;
        let mut total_age: u64 = 0;
        let mut total_health: u32 = 0;
        let mut total_hunger: u32 = 0;
        let mut total_thirst: u32 = 0;
        let mut j: usize = 0;
        while j < count
            invariant
                l == living@,
                count == l.len(),
                0 <= j <= count,
                sum_age(l) <= u64::MAX,
                sum_health(l) <= u32::MAX,
                sum_hunger(l) <= u32::MAX,
                sum_thirst(l) <= u32::MAX,
                total_age == sum_age(l.take(j as int)),
                total_health == sum_health(l.take(j as int)),
                total_hunger == sum_hunger(l.take(j as int)),
                total_thirst == sum_thirst(l.take(j as int)),
            decreases count - j,
        {
            proof {
                assert(l.take(j + 1).drop_last() =~= l.take(j as int));
                lemma_population_sums_prefix(l, j + 1);
            }
            let a = living[j];
            total_age = total_age + a.age;
            total_health = total_health + a.health as u32;
            total_hunger = total_hunger + a.hunger as u32;
            total_thirst = total_thirst + a.thirst as u32;
            j = j + 1;
        }
        proof {
            assert(l.take(count as int) =~= l);
        }
        PopulationStatistics {
            total_population: count as u64,
            average_age: total_age / count as u64,
            average_health: (total_health as u64 / count as u64) as u8,
            average_hunger: (total_hunger as u64 / count as u64) as u8,
            average_thirst: (total_thirst as u64 / count as u64) as u8,
        }
    }

    /// Statistics of the social network.
    pub fn social_statistics(&self) -> (st: SocialNetworkStatistics)
        requires
            self.social_view()@.len() <= u32::MAX,
        ensures
            st == spec_network_statistics(self.social_view()@),
    {
        self.social_network.statistics()
    }

    /// Statistics of the animal population.
    pub fn animal_statistics(&self) -> (st: AnimalPopulationStatistics)
        requires
            self.animals_view()@.len() <= u32::MAX,
            sum_animal_health(living_animals(self.animals_view()@)) <= u32::MAX,
            sum_animal_nutrition(living_animals(self.animals_view()@)) <= u32::MAX,
        ensures
            st == spec_animal_statistics(self.animals_view()@),
    {
        self.animal_population.statistics()
    }

    /// Statistics of the collective registry.
    pub fn collective_statistics(&self) -> (st: CollectiveStatistics)
        requires
            statistics_ok(self.registry_view()@),
        ensures
            st == spec_collective_statistics(self.registry_view()@),
    {
        self.collective_registry.statistics()
    }

    /// Number of corpses.
    pub fn corpse_count(&self) -> (n: usize)
        ensures
            n == self.corpses_view().len(),
    {
        self.corpses.len()
    }

    /// The digest of the next id and every agent's fields, in order.
    fn digest_of_agents(&self) -> (h: u64)
        ensures
            h == digest_agents(0x9E37_79B9_7F4A_7C15u64 ^ self.next_agent_id(), self.agents_view()),
    {
        let ghost s = self.agents@;
        let ghost h0: u64 = 0x9E37_79B9_7F4A_7C15u64 ^ self.next_id.0;
        let mut h: u64 = 0x9E37_79B9_7F4A_7C15u64 ^ self.next_id.0;
        let mut i: usize = 0;
        while i < self.agents.len()
            invariant
                s == self.agents@,
                0 <= i <= s.len(),
                h == digest_agents(h0, s.take(i as int)),
            decreases s.len() - i,
        {
            proof {
                assert(s.take(i + 1).drop_last() =~= s.take(i as int));
            }
            let a = self.agents[i];
            h = mix64(h ^ a.id.0);
            h = mix64(h ^ rotl(a.partition_id, 7));
            h = mix64(h ^ (a.health as u64));
            h = mix64(h ^ ((a.hunger as u64) << 8u64));
            h = mix64(h ^ ((a.thirst as u64) << 16u64));
            h = mix64(h ^ rotl(a.age, 11));
            h = mix64(h ^ rotl(a.max_lifespan, 13));
            h = mix64(h ^ ((a.reproduction_cooldown as u64) << 21u64));
            h = mix64(h ^ (if a.is_alive { 1u64 } else { 0u64 }));
            h = mix64(h ^ ((a.mobility as u64) << 29u64));
            h = mix64(h ^ ((a.metabolism as u64) << 37u64));
            i = i + 1;
        }
        proof {
            assert(s.take(s.len() as int) =~= s);
        }
        h
    }

    /// `h` with every corpse mixed in, in order.
    fn digest_of_corpses(&self, h0: u64) -> (h: u64)
        ensures
            h == digest_corpses(h0, self.corpses_view()),
    {
        let mut h: u64 = h0;
        let ghost hc = h0;
        let ghost c = self.corpses@;
        let mut j: usize = 0;
        while j < self.corpses.len()
            invariant
                c == self.corpses@,
                0 <= j <= c.len(),
                h == digest_corpses(hc, c.take(j as int)),
            decreases c.len() - j,
        {
            proof {
                assert(c.take(j + 1).drop_last() =~= c.take(j as int));
            }
            let corpse = self.corpses[j];
            h = mix64(h ^ corpse.agent_id.0);
            h = mix64(h ^ rotl(corpse.partition_id, 3));
            h = mix64(h ^ rotl(corpse.biomass as u64, 7));
            j = j + 1;
        }
        proof {
            assert(c.take(c.len() as int) =~= c);
        }
        h
    }

    /// A deterministic digest of the whole population: the next id and every
    /// agent field, the network, collective and animal statistics, and the
    /// corpses, mixed in a fixed order.
    pub fn digest(&self) -> (h: u64)
        requires
            self.social_view()@.len() <= u32::MAX,
            statistics_ok(self.registry_view()@),
            self.animals_view()@.len() <= u32::MAX,
            sum_animal_health(living_animals(self.animals_view()@)) <= u32::MAX,
            sum_animal_nutrition(living_animals(self.animals_view()@)) <= u32::MAX,
        ensures
            h == digest_tail(
                digest_agents(0x9E37_79B9_7F4A_7C15u64 ^ self.next_agent_id(), self.agents_view()),
                spec_network_statistics(self.social_view()@),
                spec_collective_statistics(self.registry_view()@),
                spec_animal_statistics(self.animals_view()@),
                self.corpses_view(),
            ),
    {
        let mut h: u64 = self.digest_of_agents();
        let stats = self.social_network.statistics();
        h = mix64(h ^ stats.total_ties);
        h = mix64(h ^ rotl(stats.average_trust as u64, 19));
        h = mix64(h ^ rotl(stats.average_grievance as u64, 23));
        h = mix64(h ^ rotl(stats.total_cooperation, 27));
        h = mix64(h ^ rotl(stats.total_conflict, 31));
        let coll_stats = self.collective_registry.statistics();
        h = mix64(h ^ rotl(coll_stats.total_collectives, 35));
        h = mix64(h ^ rotl(coll_stats.total_members, 39));
        h = mix64(h ^ rotl(coll_stats.average_legitimacy as u64, 43));
        h = mix64(h ^ rotl(coll_stats.average_factionalism as u64, 47));
        let animal_stats = self.animal_population.statistics();
        h = mix64(h ^ rotl(animal_stats.total_animals, 51));
        h = mix64(h ^ rotl(animal_stats.average_health as u64, 55));
        h = mix64(h ^ rotl(animal_stats.average_nutrition as u64, 59));
        h = mix64(h ^ rotl(self.corpses.len() as u64, 63));
        h = self.digest_of_corpses(h);
        h
    }
}

impl Default for AgentPopulation {
    fn default() -> (p: Self)
        ensures
            p.agents_view() == Seq::<Individual>::empty(),
            p.next_agent_id() == 0,
            p.corpses_view() == Seq::<Corpse>::empty(),
    {
        AgentPopulation::new()
    }
}

/// Every agent is either kept, living, or turned into a corpse: none is
/// lost and none is counted twice.
pub proof fn lemma_dead_become_corpses(s: Seq<Individual>, tick: u64)
    ensures
        living_agents(s).len() + corpses_of_dead(s, tick).len() == s.len(),
        forall|i: int| 0 <= i < living_agents(s).len() ==> (#[trigger] living_agents(s)[i]).is_alive,
    decreases s.len(),
{
    if s.len() > 0 {
        lemma_dead_become_corpses(s.drop_last(), tick);
        let l = living_agents(s.drop_last());
        if s.last().is_alive {
            assert forall|i: int| 0 <= i < living_agents(s).len() implies (#[trigger] living_agents(s)[i]).is_alive by {
                if i < l.len() {
                    assert(living_agents(s)[i] == l[i]);
                }
            }
        }
    }
}

/// Every corpse is either kept or removed by a cleanup at `tick`.
pub proof fn lemma_corpse_cleanup_partitions(s: Seq<Corpse>, tick: u64)
    ensures
        corpses_kept(s, tick).len() + corpses_gone(s, tick).len() == s.len(),
    decreases s.len(),
{
    if s.len() > 0 {
        lemma_corpse_cleanup_partitions(s.drop_last(), tick);
    }
}

/// Ids of the living agents in a partition, in population order.
pub open spec fn living_ids_in(s: Seq<Individual>, partition_id: u64) -> Seq<AgentId>
    decreases s.len(),
{
    if s.len() == 0 {
        Seq::empty()
    } else if s.last().is_alive && s.last().partition_id == partition_id {
        living_ids_in(s.drop_last(), partition_id).push(s.last().id)
    } else {
        living_ids_in(s.drop_last(), partition_id)
    }
}

/// Sum of the social tension of partitions `0..k`, each among its living agents.
pub open spec fn tension_total(ties: Seq<TieEntry>, s: Seq<Individual>, k: nat) -> nat
    decreases k,
{
    if k == 0 {
        0
    } else {
        tension_total(ties, s, (k - 1) as nat) + spec_partition_tension(ties, living_ids_in(s, (k - 1) as u64)) as nat
    }
}

proof fn lemma_living_ids_len(s: Seq<Individual>, partition_id: u64)
    ensures
        living_ids_in(s, partition_id).len() <= s.len(),
    decreases s.len(),
{
    if s.len() > 0 {
        lemma_living_ids_len(s.drop_last(), partition_id);
    }
}

proof fn lemma_tension_total_mono(ties: Seq<TieEntry>, s: Seq<Individual>, j: nat, k: nat)
    requires
        j <= k,
    ensures
        tension_total(ties, s, j) <= tension_total(ties, s, k),
    decreases k,
{
    if j < k {
        lemma_tension_total_mono(ties, s, j, (k - 1) as nat);
    }
}

/// Within a table whose ties all have trust in [-100, 100], so do the ties
/// among any listed agents.
pub proof fn lemma_bounded_ties_bound_pairs(ties: Seq<TieEntry>, ids: Seq<AgentId>)
    requires
        ties_bounded(ties),
    ensures
        pairs_trust_bounded(ties, ids),
{
    assert forall|i: int, j: int| 0 <= i < j < ids.len() implies match #[trigger] lookup_tie(ties, tie_key(ids[i], ids[j])) {
        Some(t) => -100 <= t.trust <= 100,
        None => true,
    } by {
        lemma_find_tie(ties, tie_key(ids[i], ids[j]));
    }
}

fn living_ids(agents: &[Individual], partition_id: u64) -> (r: Vec<AgentId>)
    ensures
        r@ == living_ids_in(agents@, partition_id),
{
    let ghost s = agents@;
    let mut r: Vec<AgentId> = Vec::new();
    let mut i: usize = 0;
    while i < agents.len()
        invariant
            s == agents@,
            0 <= i <= s.len(),
            r@ == living_ids_in(s.take(i as int), partition_id),
        decreases s.len() - i,
    {
        proof {
            assert(s.take(i + 1).drop_last() =~= s.take(i as int));
        }
        if agents[i].is_alive && agents[i].partition_id == partition_id {
            r.push(agents[i].id);
        }
        i = i + 1;
    }
    proof {
        assert(s.take(s.len() as int) =~= s);
    }
    r
}

/// Social tension of the world: the tension among the living agents of each
/// partition, summed over the partitions and divided by their number (at least 1).
pub fn social_tension(agents: &AgentPopulation, partition_count: u64) -> (r: u64)
    requires
        ties_bounded(agents.social_view()@),
        agents.agents_view().len() <= 1_000_000,
        tension_total(agents.social_view()@, agents.agents_view(), partition_count as nat) <= u64::MAX,
    ensures
        r == tension_total(agents.social_view()@, agents.agents_view(), partition_count as nat) as int / (if partition_count
            == 0 {
            1int
        } else {
            partition_count as int
        }),
{
    let all = agents.agents();
    let ghost ties = agents.social_view()@;
    let ghost s = agents.agents_view();
    let mut total: u64 = 0;
    let mut p: u64 = 0;
    while p < partition_count
        invariant
            all@ == s,
            ties == agents.social_view()@,
            ties_bounded(ties),
            s.len() <= 1_000_000,
            tension_total(ties, s, partition_count as nat) <= u64::MAX,
            0 <= p <= partition_count,
            total == tension_total(ties, s, p as nat),
        decreases partition_count - p,
    {
        let ids = living_ids(all, p);
        proof {
            lemma_living_ids_len(s, p);
            lemma_bounded_ties_bound_pairs(ties, ids@);
            lemma_tension_total_mono(ties, s, (p + 1) as nat, partition_count as nat);
        }
        let t = agents.social_network.partition_tension(ids.as_slice());
        total = total + t as u64;
        p = p + 1;
    }
    let count: u64 = if partition_count == 0 { 1 } else { partition_count };
    total / count
}

/// Number of living domesticated animals in a partition.
pub open spec fn livestock_in(a: Seq<Animal>, partition_id: u64) -> nat
    decreases a.len(),
{
    if a.len() == 0 {
        0
    } else {
        livestock_in(a.drop_last(), partition_id) + if a.last().is_alive && a.last().is_domesticated
            && a.last().partition_id == partition_id {
            1nat
        } else {
            0nat
        }
    }
}

/// Zoonotic pressure of partition `q`: its livestock count squared plus the
/// disease risk of its unprocessed corpses.
pub open spec fn partition_zoonotic(a: Seq<Animal>, c: Seq<Corpse>, q: u64) -> nat {
    livestock_in(a, q) * livestock_in(a, q) + disease_sum(corpses_in(c, q))
}

/// Sum of the zoonotic pressure of partitions `0..k`.
pub open spec fn zoonotic_total(a: Seq<Animal>, c: Seq<Corpse>, k: nat) -> nat
    decreases k,
{
    if k == 0 {
        0
    } else {
        zoonotic_total(a, c, (k - 1) as nat) + partition_zoonotic(a, c, (k - 1) as u64)
    }
}

proof fn lemma_zoonotic_total_mono(a: Seq<Animal>, c: Seq<Corpse>, j: nat, k: nat)
    requires
        j <= k,
    ensures
        zoonotic_total(a, c, j) <= zoonotic_total(a, c, k),
    decreases k,
{
    if j < k {
        lemma_zoonotic_total_mono(a, c, j, (k - 1) as nat);
    }
}

fn livestock_count(animals: &[Animal], partition_id: u64) -> (n: u64)
    ensures
        n == livestock_in(animals@, partition_id),
{
    let ghost a = animals@;
    let mut n: u64 = 0;
    let mut i: usize = 0;
    while i < animals.len()
        invariant
            a == animals@,
            0 <= i <= a.len(),
            n == livestock_in(a.take(i as int), partition_id),
            n <= i,
        decreases a.len() - i,
    {
        proof {
            assert(a.take(i + 1).drop_last() =~= a.take(i as int));
        }
        if animals[i].is_alive && animals[i].is_domesticated && animals[i].partition_id == partition_id {
            n = n + 1;
        }
        i = i + 1;
    }
    proof {
        assert(a.take(a.len() as int) =~= a);
    }
    n
}

/// Zoonotic disease pressure from livestock density: over the partitions, the
/// squared count of living domesticated animals plus the corpses' disease
/// risk, summed and divided by the number of partitions (0 with none).
pub fn calculate_zoonotic_pressure(agents: &AgentPopulation, partition_count: u64) -> (r: u64)
    requires
        zoonotic_total(agents.animals_view()@, agents.corpses_view(), partition_count as nat) <= u64::MAX,
        forall|q: u64| q < partition_count ==> #[trigger] disease_sum(corpses_in(agents.corpses_view(), q)) <= u32::MAX,
    ensures
        r == (if partition_count == 0 {
            0
        } else {
            zoonotic_total(agents.animals_view()@, agents.corpses_view(), partition_count as nat) as int / partition_count as int
        }),
{
    if partition_count == 0 {
        return 0;
    }
    let animals = agents.animal_population.animals();
    let ghost a = agents.animals_view()@;
    let ghost c = agents.corpses_view();
    let mut total: u64 = 0;
    let mut q: u64 = 0;
    while q < partition_count
        invariant
            animals@ == a,
            a == agents.animals_view()@,
            c == agents.corpses_view(),
            zoonotic_total(a, c, partition_count as nat) <= u64::MAX,
            forall|x: u64| x < partition_count ==> #[trigger] disease_sum(corpses_in(c, x)) <= u32::MAX,
            0 <= q <= partition_count,
            total == zoonotic_total(a, c, q as nat),
        decreases partition_count - q,
    {
        proof {
            lemma_zoonotic_total_mono(a, c, (q + 1) as nat, partition_count as nat);
        }
        let livestock = livestock_count(animals, q);
        let corpse_pressure = agents.corpse_disease_pressure(q);
        proof {
            assert(livestock * livestock <= u64::MAX);
        }
        let density_factor: u64 = livestock * livestock;
        total = total + (density_factor + corpse_pressure as u64);
        q = q + 1;
    }
    total / partition_count
}

} // verus!
