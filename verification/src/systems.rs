use vstd::prelude::*;

use crate::agents::{
    AgentPopulation, Individual, food_taken, living_agents, spec_can_reproduce, spec_consume, spec_update_needs,
    spec_wants_to_move, update_needs_ok, water_taken,
};
use crate::world::MAX_RESOURCE_VALUE;

verus! {

pub struct SystemsModule;

impl SystemsModule {
    pub fn name() -> (n: &'static str)
        ensures
            n@ == "polis-systems"@,
    {
        "polis-systems"
    }
}

/// The phases of a simulation tick, in the order they run.
#[derive(Debug, Clone, Copy, PartialEq, Eq, Structural)]
pub enum SystemPhase {
    Perception,
    Decision,
    Commit,
}

/// The registered phases, in order: perception, decision, commit.
pub fn registered_phases() -> (r: &'static [SystemPhase])
    ensures
        r@ == seq![SystemPhase::Perception, SystemPhase::Decision, SystemPhase::Commit],
{
    let phases: &'static [SystemPhase] = &[SystemPhase::Perception, SystemPhase::Decision, SystemPhase::Commit];
    phases
}

/// `x` rotated left by `k` bits, for `0 < k < 64`.
pub open spec fn rotl64(x: u64, k: u64) -> u64 {
    (x << k) | (x >> (64 - k) as u64)
}

/// `x` rotated right by `k` bits, for `0 < k < 64`.
pub open spec fn rotr64(x: u64, k: u64) -> u64 {
    (x >> k) | (x << (64 - k) as u64)
}

/// The mixing hash of a seed, a tick and a current value.
pub open spec fn spec_mix_hash(seed: u64, tick: u64, current: u64) -> u64 {
    let x0 = current ^ rotl64(seed, 13) ^ rotr64(tick, 7);
    let x1 = x0 ^ (x0 >> 33u64);
    let x2 = x1.wrapping_mul(0xff51_afd7_ed55_8ccdu64);
    let x3 = x2 ^ (x2 >> 33u64);
    let x4 = x3.wrapping_mul(0xc4ce_b9fe_1a85_ec53u64);
    x4 ^ (x4 >> 33u64)
}

/// The tag that separates the phases in the hash.
pub open spec fn phase_tag(phase: SystemPhase) -> u64 {
    match phase {
        SystemPhase::Perception => 0xA5A5_A5A5_A5A5_A5A5u64,
        SystemPhase::Decision => 0xC3C3_C3C3_C3C3_C3C3u64,
        SystemPhase::Commit => 0xF0F0_F0F0_F0F0_F0F0u64,
    }
}

/// The deterministic per-partition influence of a phase at a tick.
pub open spec fn spec_phase_partition_delta(seed: u64, tick: u64, phase: SystemPhase, partition_id: u64) -> u64 {
    spec_mix_hash(
        seed ^ phase_tag(phase),
        tick ^ rotl64(partition_id, 3),
        partition_id.wrapping_mul(0x9E37_79B9_7F4A_7C15u64),
    )
}

fn mix_hash(seed: u64, tick: u64, current: u64) -> (r: u64)
    ensures
        r == spec_mix_hash(seed, tick, current),
{
    let mut x = current ^ ((seed << 13u64) | (seed >> 51u64)) ^ ((tick >> 7u64) | (tick << 57u64));
    x = x ^ (x >> 33u64);
    x = x.wrapping_mul(0xff51_afd7_ed55_8ccdu64);
    x = x ^ (x >> 33u64);
    x = x.wrapping_mul(0xc4ce_b9fe_1a85_ec53u64);
    x = x ^ (x >> 33u64);
    x
}

/// The influence of `phase` on a partition at `tick`: a hash of the seed
/// tagged by the phase, the tick and the partition id.
pub fn phase_partition_delta(seed: u64, tick: u64, phase: SystemPhase, partition_id: u64) -> (r: u64)
    ensures
        r == spec_phase_partition_delta(seed, tick, phase, partition_id),
{
    let tag: u64 = match phase {
        SystemPhase::Perception => 0xA5A5_A5A5_A5A5_A5A5u64,
        SystemPhase::Decision => 0xC3C3_C3C3_C3C3_C3C3u64,
        SystemPhase::Commit => 0xF0F0_F0F0_F0F0_F0F0u64,
    };
    mix_hash(
        seed ^ tag,
        tick ^ ((partition_id << 3u64) | (partition_id >> 61u64)),
        partition_id.wrapping_mul(0x9E37_79B9_7F4A_7C15u64),
    )
}

/// Removes the dead agents of a population.
pub fn cleanup_dead_agents(population: &mut AgentPopulation)
    ensures
        final(population).agents_view() == living_agents(old(population).agents_view()),
        final(population).corpses_view() == old(population).corpses_view(),
        final(population).next_agent_id() == old(population).next_agent_id(),
        final(population).social_view() == old(population).social_view(),
        final(population).registry_view() == old(population).registry_view(),
        final(population).animals_view() == old(population).animals_view(),
{
    population.cleanup_dead();
}

/// What the agent phases read and change of a partition: its food, water
/// and waste quantities and its demand.
#[derive(Debug, Clone, Copy, PartialEq, Eq, Structural)]
pub struct PartitionStocks {
    pub food: i64,
    pub water: i64,
    pub waste: i64,
    pub demand: u64,
}

/// A quantity as offered to agents: negative stocks offer nothing.
pub open spec fn offered(q: i64) -> u64 {
    if q > 0 { q as u64 } else { 0 }
}

/// A deposit into a stock: the quantity read as `u64`, plus the amount
/// (saturating), capped at the maximum resource value.
pub open spec fn deposited(q: i64, amount: u64) -> i64 {
    let sum: int = (q as u64) + amount;
    let sat: int = if sum > u64::MAX { u64::MAX as int } else { sum };
    (if sat <= MAX_RESOURCE_VALUE { sat } else { MAX_RESOURCE_VALUE as int }) as i64
}

/// How attractive a partition is: the prioritized resource counts twice.
pub open spec fn partition_score(p: PartitionStocks, prioritize_food: bool) -> int {
    if prioritize_food {
        2 * offered(p.food) + offered(p.water)
    } else {
        offered(p.food) + 2 * offered(p.water)
    }
}

/// The scores of every partition fit in `i64`.
pub open spec fn stocks_ok(ps: Seq<PartitionStocks>) -> bool {
    forall|i: int| 0 <= i < ps.len() ==> {
        &&& 2 * offered((#[trigger] ps[i]).food) + offered(ps[i].water) <= i64::MAX
        &&& offered(ps[i].food) + 2 * offered(ps[i].water) <= i64::MAX
    }
}

/// The partition an agent in `current` moves to on a ring of partitions:
/// the previous one if it scores higher than here and at least as high as
/// the next, else the next if it scores higher than here, else none.
pub open spec fn better_partition(current: u64, ps: Seq<PartitionStocks>, prioritize_food: bool) -> u64 {
    let n = ps.len();
    if n <= 1 {
        current
    } else {
        let prev = ((current + n - 1) % (n as int)) as u64;
        let next = ((current + 1) % (n as int)) as u64;
        let cs = partition_score(ps[current as int], prioritize_food);
        let ps_ = partition_score(ps[prev as int], prioritize_food);
        let ns = partition_score(ps[next as int], prioritize_food);
        if ps_ > cs && ps_ >= ns {
            prev
        } else if ns > cs {
            next
        } else {
            current
        }
    }
}

/// The agent after perceiving: a living agent in a known partition that
/// wants to move goes to the better neighbouring partition, if any.
pub open spec fn perceive(a: Individual, ps: Seq<PartitionStocks>) -> Individual {
    if a.is_alive && (a.partition_id as int) < ps.len() {
        let p = ps[a.partition_id as int];
        if spec_wants_to_move(a, offered(p.food), offered(p.water)) {
            Individual { partition_id: better_partition(a.partition_id, ps, a.hunger > a.thirst), ..a }
        } else {
            a
        }
    } else {
        a
    }
}

fn score(p: &PartitionStocks, prioritize_food: bool) -> (r: i64)
    requires
        2 * offered(p.food) + offered(p.water) <= i64::MAX,
        offered(p.food) + 2 * offered(p.water) <= i64::MAX,
    ensures
        r == partition_score(*p, prioritize_food),
{
    let food_score: i64 = if p.food > 0 { p.food } else { 0 };
    let water_score: i64 = if p.water > 0 { p.water } else { 0 };
    if prioritize_food {
        food_score * 2 + water_score
    } else {
        food_score + water_score * 2
    }
}

fn find_better_partition(current_partition_id: u64, partitions: &[PartitionStocks], prioritize_food: bool) -> (r: u64)
    requires
        partitions@.len() <= 1 || (current_partition_id as int) < partitions@.len(),
        partitions@.len() < u64::MAX / 2,
        stocks_ok(partitions@),
    ensures
        r == better_partition(current_partition_id, partitions@, prioritize_food),
{
    let n = partitions.len() as u64;
    if n <= 1 {
        return current_partition_id;
    }
    let prev = (current_partition_id + n - 1) % n;
    let next = (current_partition_id + 1) % n;
    let current_score = score(&partitions[current_partition_id as usize], prioritize_food);
    let prev_score = score(&partitions[prev as usize], prioritize_food);
    let next_score = score(&partitions[next as usize], prioritize_food);
    if prev_score > current_score && prev_score >= next_score {
        prev
    } else if next_score > current_score {
        next
    } else {
        current_partition_id
    }
}

/// Living agents may move: each that wants to leave its partition (by its
/// needs and the resources there, or by its mobility) moves to the better
/// neighbouring partition on the ring, if one is better.
pub fn agent_perception_phase(agents: &mut [Individual], partitions: &[PartitionStocks], _tick: u64, _seed: u64)
    requires
        forall|i: int| 0 <= i < old(agents)@.len() ==> (#[trigger] old(agents)@[i]).is_alive ==> old(agents)@[i].mobility <= 100,
        partitions@.len() < u64::MAX / 2,
        stocks_ok(partitions@),
    ensures
        final(agents)@.len() == old(agents)@.len(),
        forall|i: int| 0 <= i < old(agents)@.len() ==> #[trigger] final(agents)@[i] == perceive(old(agents)@[i], partitions@),
{
    let ghost a0 = agents@;
    let n = agents.len();
    let mut i: usize = 0;
    while i < n
        invariant
            n == a0.len(),
            agents@.len() == n,
            partitions@.len() < u64::MAX / 2,
            stocks_ok(partitions@),
            forall|j: int| 0 <= j < n ==> (#[trigger] a0[j]).is_alive ==> a0[j].mobility <= 100,
            0 <= i <= n,
            forall|j: int| 0 <= j < i ==> #[trigger] agents@[j] == perceive(a0[j], partitions@),
            forall|j: int| i <= j < n ==> #[trigger] agents@[j] == a0[j],
        decreases n - i,
    {
        let mut agent = agents[i];
        if agent.is_alive && (agent.partition_id as u128) < (partitions.len() as u128) {
            let p = partitions[agent.partition_id as usize];
            let food_available: u64 = if p.food > 0 { p.food as u64 } else { 0 };
            let water_available: u64 = if p.water > 0 { p.water as u64 } else { 0 };
            if agent.wants_to_move(food_available, water_available) {
                let new_partition = find_better_partition(agent.partition_id, partitions, agent.hunger > agent.thirst);
                if new_partition != agent.partition_id {
                    agent.move_to(new_partition);
                }
            }
        }
        agents[i] = agent;
        i = i + 1;
    }
}

/// One agent's meal: a living agent in a known partition eats and drinks
/// what it offers; the stocks drop by what was taken, and any consumption
/// deposits a quarter of it (at least 1) as waste.
pub open spec fn eat(a: Individual, ps: Seq<PartitionStocks>) -> (Individual, Seq<PartitionStocks>) {
    if a.is_alive && (a.partition_id as int) < ps.len() {
        let p = ps[a.partition_id as int];
        let f = food_taken(a, offered(p.food));
        let w = water_taken(a, offered(p.water));
        let total = f + w;
        let p1 = PartitionStocks {
            food: (p.food - f) as i64,
            water: (p.water - w) as i64,
            waste: if total > 0 {
                deposited(p.waste, (if total / 4 >= 1 { total / 4 } else { 1 }) as u64)
            } else {
                p.waste
            },
            ..p
        };
        (spec_consume(a, offered(p.food), offered(p.water)), ps.update(a.partition_id as int, p1))
    } else {
        (a, ps)
    }
}

/// The consumption pass over the agents, in order.
pub open spec fn consumption_pass(agents: Seq<Individual>, ps: Seq<PartitionStocks>) -> (Seq<Individual>, Seq<PartitionStocks>)
    decreases agents.len(),
{
    if agents.len() == 0 {
        (agents, ps)
    } else {
        let prev = consumption_pass(agents.drop_last(), ps);
        let r = eat(agents.last(), prev.1);
        (prev.0.push(r.0), r.1)
    }
}

/// Every agent can eat without an arithmetic overflow, whatever is offered.
pub open spec fn can_eat(a: Individual) -> bool {
    a.is_alive ==> a.health < 255
}

/// Number of living agents in partition `pid`.
pub open spec fn living_in(s: Seq<Individual>, pid: u64) -> nat
    decreases s.len(),
{
    if s.len() == 0 {
        0
    } else {
        living_in(s.drop_last(), pid) + if s.last().is_alive && s.last().partition_id == pid { 1nat } else { 0nat }
    }
}

/// Number of births recorded in partition `pid`.
pub open spec fn births_in(nb: Seq<(u64, u8)>, pid: u64) -> nat
    decreases nb.len(),
{
    if nb.len() == 0 {
        0
    } else {
        births_in(nb.drop_last(), pid) + if nb.last().0 == pid { 1nat } else { 0nat }
    }
}

/// The reproduction pass over `prefix`: an agent that can reproduce, in a
/// known partition with fewer than 50 living agents and births so far and
/// more than 200 food and water, gives birth (its cooldown is reset and a
/// newborn with its partition and metabolism is recorded).
pub open spec fn reproduction_pass(all: Seq<Individual>, ps: Seq<PartitionStocks>, prefix: Seq<Individual>) -> (
    Seq<Individual>,
    Seq<(u64, u8)>,
)
    decreases prefix.len(),
{
    if prefix.len() == 0 {
        (Seq::empty(), Seq::empty())
    } else {
        let prev = reproduction_pass(all, ps, prefix.drop_last());
        let a = prefix.last();
        let pid = a.partition_id;
        if spec_can_reproduce(a) && (pid as int) < ps.len() && living_in(all, pid) + births_in(prev.1, pid) < 50
            && ps[pid as int].food > 200 && ps[pid as int].water > 200 {
            (prev.0.push(Individual { reproduction_cooldown: 1000, ..a }), prev.1.push((pid, a.metabolism)))
        } else {
            (prev.0.push(a), prev.1)
        }
    }
}

proof fn lemma_consumption_pass_len(agents: Seq<Individual>, ps: Seq<PartitionStocks>)
    ensures
        consumption_pass(agents, ps).0.len() == agents.len(),
        consumption_pass(agents, ps).1.len() == ps.len(),
    decreases agents.len(),
{
    if agents.len() > 0 {
        lemma_consumption_pass_len(agents.drop_last(), ps);
    }
}

proof fn lemma_reproduction_pass_len(all: Seq<Individual>, ps: Seq<PartitionStocks>, prefix: Seq<Individual>)
    ensures
        reproduction_pass(all, ps, prefix).0.len() == prefix.len(),
    decreases prefix.len(),
{
    if prefix.len() > 0 {
        lemma_reproduction_pass_len(all, ps, prefix.drop_last());
    }
}

fn deposit(q: i64, amount: u64) -> (r: i64)
    ensures
        r == deposited(q, amount),
{
    let s = (q as u64).saturating_add(amount);
    (if s <= MAX_RESOURCE_VALUE { s } else { MAX_RESOURCE_VALUE }) as i64
}

/// The decision phase: first every living agent eats and drinks from its
/// partition, in order; then each agent able to reproduce does so where the
/// partition has room and resources. Returns the newborns to spawn, as
/// (partition, parent metabolism).
pub fn agent_decision_phase(agents: &mut [Individual], partitions: &mut [PartitionStocks], _tick: u64, _seed: u64) -> (newborns: Vec<(u64, u8)>)
    requires
        forall|i: int| 0 <= i < old(agents)@.len() ==> can_eat(#[trigger] old(agents)@[i]),
    ensures
        ({
            let c = consumption_pass(old(agents)@, old(partitions)@);
            let r = reproduction_pass(c.0, c.1, c.0);
            &&& final(partitions)@ == c.1
            &&& final(agents)@ == r.0
            &&& newborns@ == r.1
        }),
{
    let ghost a0 = agents@;
    let ghost p0 = partitions@;
    let n = agents.len();
    let mut i: usize = 0;
    while i < n
        invariant
            n == a0.len(),
            agents@.len() == n,
            partitions@.len() == p0.len(),
            forall|j: int| 0 <= j < n ==> can_eat(#[trigger] a0[j]),
            0 <= i <= n,
            consumption_pass(a0.take(i as int), p0).0 == agents@.take(i as int),
            consumption_pass(a0.take(i as int), p0).1 == partitions@,
            forall|j: int| i <= j < n ==> #[trigger] agents@[j] == a0[j],
        decreases n - i,
    {
        proof {
            assert(a0.take(i + 1).drop_last() =~= a0.take(i as int));
            lemma_consumption_pass_len(a0.take(i as int), p0);
        }
        let mut agent = agents[i];
        let ghost before = partitions@;
        if agent.is_alive && (agent.partition_id as u128) < (partitions.len() as u128) {
            let pid = agent.partition_id as usize;
            let p = partitions[pid];
            let food_available: u64 = if p.food > 0 { p.food as u64 } else { 0 };
            let water_available: u64 = if p.water > 0 { p.water as u64 } else { 0 };
            let (food_consumed, water_consumed) = agent.consume(food_available, water_available);
            let mut q = p;
            q.food = p.food - food_consumed as i64;
            q.water = p.water - water_consumed as i64;
            let total_consumed = food_consumed + water_consumed;
            if total_consumed > 0 {
                let quarter = total_consumed / 4;
                let waste_created = if quarter >= 1 { quarter } else { 1 };
                q.waste = deposit(q.waste, waste_created);
            }
            partitions[pid] = q;
        }
        agents[i] = agent;
        proof {
            assert(agents@.take(i + 1) =~= agents@.take(i as int).push(agent));
        }
        i = i + 1;
    }
    proof {
        assert(a0.take(n as int) =~= a0);
        assert(agents@.take(n as int) =~= agents@);
    }
    let ghost a1 = agents@;
    let np = partitions.len();
    let mut counts: Vec<usize> = Vec::new();
    let mut q: usize = 0;
    while q < np
        invariant
            0 <= q <= np,
            np == partitions@.len(),
            counts@.len() == q,
            forall|x: int| 0 <= x < q ==> #[trigger] counts@[x] == 0,
        decreases np - q,
    {
        counts.push(0);
        q = q + 1;
    }
    let mut k: usize = 0;
    while k < n
        invariant
            a1 == agents@,
            n == a1.len(),
            np == partitions@.len(),
            counts@.len() == np,
            0 <= k <= n,
            forall|x: int| 0 <= x < np ==> #[trigger] counts@[x] == living_in(a1.take(k as int), x as u64),
            forall|x: int| 0 <= x < np ==> counts@[x] <= k,
        decreases n - k,
    {
        proof {
            assert(a1.take(k + 1).drop_last() =~= a1.take(k as int));
        }
        let a = agents[k];
        if a.is_alive && (a.partition_id as u128) < (np as u128) {
            let pid = a.partition_id as usize;
            counts[pid] = counts[pid] + 1;
        }
        k = k + 1;
    }
    proof {
        assert(a1.take(n as int) =~= a1);
    }
    let mut newborns: Vec<(u64, u8)> = Vec::new();
    let mut m: usize = 0;
    while m < n
        invariant
            a1.len() == n,
            agents@.len() == n,
            np == partitions@.len(),
            counts@.len() == np,
            0 <= m <= n,
            forall|x: int| 0 <= x < np ==> #[trigger] counts@[x] == living_in(a1, x as u64)
                + births_in(newborns@, x as u64),
            reproduction_pass(a1, partitions@, a1.take(m as int)).0 == agents@.take(m as int),
            reproduction_pass(a1, partitions@, a1.take(m as int)).1 == newborns@,
            forall|j: int| m <= j < n ==> #[trigger] agents@[j] == a1[j],
            newborns@.len() <= m,
            forall|x: int| 0 <= x < np ==> counts@[x] <= n + m,
        decreases n - m,
    {
        proof {
            assert(a1.take(m + 1).drop_last() =~= a1.take(m as int));
            lemma_reproduction_pass_len(a1, partitions@, a1.take(m as int));
            lemma_living_in_bound(a1, 0);
        }
        let mut agent = agents[m];
        if agent.can_reproduce() && (agent.partition_id as u128) < (np as u128) {
            let pid = agent.partition_id as usize;
            let p = partitions[pid];
            if counts[pid] < 50 && p.food > 200 && p.water > 200 {
                agent.reproduce();
                newborns.push((agent.partition_id, agent.metabolism));
                counts[pid] = counts[pid] + 1;
                proof {
                    assert(newborns@.drop_last() =~= reproduction_pass(a1, partitions@, a1.take(m as int)).1);
                    assert forall|x: int| 0 <= x < np implies #[trigger] counts@[x] == living_in(a1, x as u64)
                        + births_in(newborns@, x as u64) by {
                        assert(newborns@.drop_last() =~= reproduction_pass(a1, partitions@, a1.take(m as int)).1);
                    }
                }
            }
        }
        agents[m] = agent;
        proof {
            assert(agents@.take(m + 1) =~= agents@.take(m as int).push(agent));
        }
        m = m + 1;
    }
    proof {
        assert(a1.take(n as int) =~= a1);
        assert(agents@.take(n as int) =~= agents@);
    }
    newborns
}

proof fn lemma_living_in_bound(s: Seq<Individual>, pid: u64)
    ensures
        living_in(s, pid) <= s.len(),
    decreases s.len(),
{
    if s.len() > 0 {
        lemma_living_in_bound(s.drop_last(), pid);
    }
}

/// The commit pass over the agents, in order: each living agent ages and
/// its needs grow, and its partition's demand rises by one (at most 10000).
pub open spec fn commit_pass(agents: Seq<Individual>, ps: Seq<PartitionStocks>) -> (Seq<Individual>, Seq<PartitionStocks>)
    decreases agents.len(),
{
    if agents.len() == 0 {
        (agents, ps)
    } else {
        let prev = commit_pass(agents.drop_last(), ps);
        let a = agents.last();
        if a.is_alive {
            let ps1 = if (a.partition_id as int) < prev.1.len() {
                let p = prev.1[a.partition_id as int];
                let d: int = if p.demand == u64::MAX { u64::MAX as int } else { p.demand + 1 };
                prev.1.update(a.partition_id as int, PartitionStocks { demand: (if d <= 10_000 { d } else { 10_000 }) as u64, ..p })
            } else {
                prev.1
            };
            (prev.0.push(spec_update_needs(a)), ps1)
        } else {
            (prev.0.push(a), prev.1)
        }
    }
}

proof fn lemma_commit_pass_len(agents: Seq<Individual>, ps: Seq<PartitionStocks>)
    ensures
        commit_pass(agents, ps).0.len() == agents.len(),
        commit_pass(agents, ps).1.len() == ps.len(),
    decreases agents.len(),
{
    if agents.len() > 0 {
        lemma_commit_pass_len(agents.drop_last(), ps);
    }
}

/// The commit phase: each living agent's needs are updated, and its
/// partition's demand rises by one, at most to 10000.
pub fn agent_commit_phase(agents: &mut [Individual], partitions: &mut [PartitionStocks])
    requires
        forall|i: int| 0 <= i < old(agents)@.len() ==> update_needs_ok(#[trigger] old(agents)@[i]),
    ensures
        final(agents)@ == commit_pass(old(agents)@, old(partitions)@).0,
        final(partitions)@ == commit_pass(old(agents)@, old(partitions)@).1,
{
    let ghost a0 = agents@;
    let ghost p0 = partitions@;
    let n = agents.len();
    let mut i: usize = 0;
    while i < n
        invariant
            n == a0.len(),
            agents@.len() == n,
            forall|j: int| 0 <= j < n ==> update_needs_ok(#[trigger] a0[j]),
            0 <= i <= n,
            commit_pass(a0.take(i as int), p0).0 == agents@.take(i as int),
            commit_pass(a0.take(i as int), p0).1 == partitions@,
            forall|j: int| i <= j < n ==> #[trigger] agents@[j] == a0[j],
        decreases n - i,
    {
        proof {
            assert(a0.take(i + 1).drop_last() =~= a0.take(i as int));
            lemma_commit_pass_len(a0.take(i as int), p0);
        }
        let mut agent = agents[i];
        if agent.is_alive {
            agent.update_needs();
            if (agent.partition_id as u128) < (partitions.len() as u128) {
                let pid = agent.partition_id as usize;
                let mut p = partitions[pid];
                let d = p.demand.saturating_add(1);
                p.demand = if d <= 10_000 { d } else { 10_000 };
                partitions[pid] = p;
            }
        }
        agents[i] = agent;
        proof {
            assert(agents@.take(i + 1) =~= agents@.take(i as int).push(agent));
        }
        i = i + 1;
    }
    proof {
        assert(a0.take(n as int) =~= a0);
        assert(agents@.take(n as int) =~= agents@);
    }
}

/// Eating never drives a stock below zero: a partition whose food and water
/// are not negative keeps them so.
pub proof fn lemma_eat_keeps_stocks_nonnegative(a: Individual, ps: Seq<PartitionStocks>)
    requires
        forall|i: int| 0 <= i < ps.len() ==> (#[trigger] ps[i]).food >= 0 && ps[i].water >= 0,
    ensures
        eat(a, ps).1.len() == ps.len(),
        forall|i: int| 0 <= i < ps.len() ==> (#[trigger] eat(a, ps).1[i]).food >= 0 && eat(a, ps).1[i].water >= 0,
{
    if a.is_alive && (a.partition_id as int) < ps.len() {
        let p = ps[a.partition_id as int];
        assert(food_taken(a, offered(p.food)) <= offered(p.food));
        assert(water_taken(a, offered(p.water)) <= offered(p.water));
    }
}

/// The consumption pass keeps every non-negative stock non-negative.
pub proof fn lemma_consumption_keeps_stocks_nonnegative(agents: Seq<Individual>, ps: Seq<PartitionStocks>)
    requires
        forall|i: int| 0 <= i < ps.len() ==> (#[trigger] ps[i]).food >= 0 && ps[i].water >= 0,
    ensures
        consumption_pass(agents, ps).1.len() == ps.len(),
        forall|i: int| 0 <= i < ps.len() ==> (#[trigger] consumption_pass(agents, ps).1[i]).food >= 0
            && consumption_pass(agents, ps).1[i].water >= 0,
    decreases agents.len(),
{
    if agents.len() > 0 {
        lemma_consumption_keeps_stocks_nonnegative(agents.drop_last(), ps);
        let prev = consumption_pass(agents.drop_last(), ps);
        lemma_eat_keeps_stocks_nonnegative(agents.last(), prev.1);
    }
}

/// The perception phase only moves agents: every other field of each agent
/// is unchanged, and a moved agent is alive and lands in a known partition.
pub proof fn lemma_perception_only_moves(a: Individual, ps: Seq<PartitionStocks>)
    requires
        ps.len() < u64::MAX / 2,
    ensures
        perceive(a, ps) == (Individual { partition_id: perceive(a, ps).partition_id, ..a }),
        perceive(a, ps).partition_id != a.partition_id ==> a.is_alive && (perceive(a, ps).partition_id as int) < ps.len(),
{
}

} // verus!
