use vstd::prelude::*;

use crate::knowledge::{DiscoveryStage, stage_rank};

verus! {

/// One discovery-stage transition of an agent on a knowledge item, as the
/// tick loop reports it.
#[derive(Debug, Clone, Copy, PartialEq, Eq, Structural)]
pub struct DiscoveryTransition {
    pub tick: u64,
    pub agent_id: u64,
    pub knowledge_id: u64,
    pub new_stage: DiscoveryStage,
}

/// The discovery figures of one tick's metrics.
#[derive(Debug, Clone, Copy, PartialEq, Eq, Structural)]
pub struct DiscoveryMetrics {
    /// Transitions into `Technique` made at the current tick.
    pub discoveries_this_tick: u64,
    /// Distinct (agent, knowledge) pairs that reached `Technique` or beyond.
    pub total_knowledge_items: u64,
    /// Mean stage rank over all transitions, rounded down (0 with none).
    pub average_discovery_stage: u64,
}

/// Number of transitions into `Technique` made at `tick`.
pub open spec fn techniques_at(s: Seq<DiscoveryTransition>, tick: u64) -> nat
    decreases s.len(),
{
    if s.len() == 0 {
        0
    } else {
        techniques_at(s.drop_last(), tick) + if s.last().tick == tick && s.last().new_stage
            == DiscoveryStage::Technique {
            1nat
        } else {
            0nat
        }
    }
}

/// The (agent, knowledge) pairs with a transition to `Technique` or beyond.
pub open spec fn discovered_pairs(s: Seq<DiscoveryTransition>) -> Set<(u64, u64)>
    decreases s.len(),
{
    if s.len() == 0 {
        Set::empty()
    } else if stage_rank(s.last().new_stage) >= 4 {
        discovered_pairs(s.drop_last()).insert((s.last().agent_id, s.last().knowledge_id))
    } else {
        discovered_pairs(s.drop_last())
    }
}

/// Sum of the stage ranks of all transitions.
pub open spec fn stage_rank_sum(s: Seq<DiscoveryTransition>) -> nat
    decreases s.len(),
{
    if s.len() == 0 {
        0
    } else {
        stage_rank_sum(s.drop_last()) + stage_rank(s.last().new_stage) as nat
    }
}

pub open spec fn spec_discovery_metrics(s: Seq<DiscoveryTransition>, current_tick: u64) -> DiscoveryMetrics {
    DiscoveryMetrics {
        discoveries_this_tick: techniques_at(s, current_tick) as u64,
        total_knowledge_items: discovered_pairs(s).len() as u64,
        average_discovery_stage: if s.len() == 0 {
            0
        } else {
            (stage_rank_sum(s) / s.len()) as u64
        },
    }
}

proof fn lemma_counts_bounded(s: Seq<DiscoveryTransition>, tick: u64)
    ensures
        techniques_at(s, tick) <= s.len(),
        stage_rank_sum(s) <= 6 * s.len(),
    decreases s.len(),
{
    if s.len() > 0 {
        lemma_counts_bounded(s.drop_last(), tick);
    }
}

/// The discovery figures of a tick at `current_tick` from the transitions
/// reported so far.
pub fn discovery_metrics(transitions: &[DiscoveryTransition], current_tick: u64) -> (m: DiscoveryMetrics)
    requires
        6 * transitions@.len() <= u64::MAX,
    ensures
        m == spec_discovery_metrics(transitions@, current_tick),
{
    let ghost s = transitions@;
    let n = transitions.len();
    let mut this_tick: u64 = 0;
    let mut stage_sum: u64 = 0;
    let mut seen: Vec<(u64, u64)> = Vec::new();
    let mut i: usize = 0;
    while i < n
        invariant
            n == s.len(),
            s == transitions@,
            6 * n <= u64::MAX,
            0 <= i <= n,
            this_tick == techniques_at(s.take(i as int), current_tick),
            stage_sum == stage_rank_sum(s.take(i as int)),
            seen@.no_duplicates(),
            seen@.to_set() == discovered_pairs(s.take(i as int)),
        decreases n - i,
    {
        proof {
            assert(s.take(i + 1).drop_last() =~= s.take(i as int));
            lemma_counts_bounded(s.take(i as int), current_tick);
        }
        let t = transitions[i];
        if t.tick == current_tick && t.new_stage == DiscoveryStage::Technique {
            this_tick = this_tick + 1;
        }
        let rank: u8 = t.new_stage.as_u8();
        stage_sum = stage_sum + rank as u64;
        if rank >= 4 {
            let pair = (t.agent_id, t.knowledge_id);
            let mut found = false;
            let mut j: usize = 0;
            while j < seen.len()
                invariant
                    0 <= j <= seen@.len(),
                    found == exists|k: int| 0 <= k < j && seen@[k] == pair,
                decreases seen@.len() - j,
            {
                if seen[j].0 == pair.0 && seen[j].1 == pair.1 {
                    found = true;
                }
                j = j + 1;
            }
            if !found {
                let ghost before = seen@;
                seen.push(pair);
                proof {
                    assert forall|a: int, b: int| 0 <= a < b < seen@.len() implies seen@[a] != seen@[b] by {
                        if b == before.len() {
                            assert(seen@[a] == before[a]);
                        } else {
                            assert(seen@[a] == before[a] && seen@[b] == before[b]);
                        }
                    }
                    assert(seen@ =~= before.push(pair));
                    assert forall|x: (u64, u64)| seen@.contains(x) == (before.contains(x) || x == pair) by {
                        if seen@.contains(x) && x != pair {
                            let k = choose|k: int| 0 <= k < seen@.len() && seen@[k] == x;
                            assert(before[k] == x);
                        }
                        if before.contains(x) {
                            let k = choose|k: int| 0 <= k < before.len() && before[k] == x;
                            assert(seen@[k] == x);
                        }
                        if x == pair {
                            assert(seen@[before.len() as int] == x);
                        }
                    }
                    assert forall|x: (u64, u64)| #[trigger] seen@.to_set().contains(x) == before.to_set().insert(pair).contains(x) by {
                        assert(seen@.to_set().contains(x) == seen@.contains(x));
                        assert(before.to_set().contains(x) == before.contains(x));
                    }
                    assert(seen@.to_set() =~= before.to_set().insert(pair));
                }
            } else {
                proof {
                    assert(seen@.contains(pair));
                    assert(seen@.to_set() =~= seen@.to_set().insert(pair));
                }
            }
        }
        i = i + 1;
    }
    proof {
        assert(s.take(n as int) =~= s);
        seen@.unique_seq_to_set();
        lemma_counts_bounded(s, current_tick);
    }
    let average: u64 = if n == 0 { 0 } else { stage_sum / n as u64 };
    DiscoveryMetrics {
        discoveries_this_tick: this_tick,
        total_knowledge_items: seen.len() as u64,
        average_discovery_stage: average,
    }
}

/// The integer tallies of one partition that the tick metrics add up.
#[derive(Debug, Clone, Copy, PartialEq, Eq, Structural)]
pub struct PartitionTally {
    /// The partition's total effective resources (negative counts as 0).
    pub total_resources: i64,
    /// The quantity of its waste stock (negative counts as 0).
    pub waste_quantity: i64,
    /// Its domestication tameness in parts per million.
    pub tameness_ppm: u64,
    pub demand: u64,
    pub cohesion: u64,
    pub herbivore_population: u64,
    pub predator_population: u64,
    pub proto_domestic_population: u64,
    pub animal_familiarity: u8,
    pub animal_fear: u8,
    pub animal_human_tolerance: u8,
}

/// World-wide totals and per-partition averages of the partition tallies.
#[derive(Debug, Clone, Copy, PartialEq, Eq, Structural)]
pub struct PartitionTotals {
    pub total_resource: u64,
    pub total_waste: u64,
    pub average_tameness_ppm: u64,
    pub total_herbivores: u64,
    pub total_predators: u64,
    pub total_proto_domestic: u64,
    pub total_demand: u64,
    pub average_cohesion: u64,
    pub average_animal_familiarity: u64,
    pub average_animal_fear: u64,
    pub average_animal_tolerance: u64,
}

/// A tally of a partition, by name.
pub enum TallyField {
    Resources,
    Waste,
    Tameness,
    Demand,
    Cohesion,
    Herbivores,
    Predators,
    ProtoDomestic,
    Familiarity,
    Fear,
    Tolerance,
}

pub open spec fn tally_value(p: PartitionTally, f: TallyField) -> nat {
    match f {
        TallyField::Resources => if p.total_resources > 0 { p.total_resources as nat } else { 0 },
        TallyField::Waste => if p.waste_quantity > 0 { p.waste_quantity as nat } else { 0 },
        TallyField::Tameness => p.tameness_ppm as nat,
        TallyField::Demand => p.demand as nat,
        TallyField::Cohesion => p.cohesion as nat,
        TallyField::Herbivores => p.herbivore_population as nat,
        TallyField::Predators => p.predator_population as nat,
        TallyField::ProtoDomestic => p.proto_domestic_population as nat,
        TallyField::Familiarity => p.animal_familiarity as nat,
        TallyField::Fear => p.animal_fear as nat,
        TallyField::Tolerance => p.animal_human_tolerance as nat,
    }
}

/// The sum of one tally over all partitions.
pub open spec fn tally_sum(s: Seq<PartitionTally>, f: TallyField) -> nat
    decreases s.len(),
{
    if s.len() == 0 {
        0
    } else {
        tally_sum(s.drop_last(), f) + tally_value(s.last(), f)
    }
}

/// `n` reduced modulo 2^64, as a sum kept with `wrapping_add` in `u64` is.
pub open spec fn wrap_u64(n: nat) -> u64 {
    (n % 0x1_0000_0000_0000_0000) as u64
}

/// Totals are the sums modulo 2^64; averages divide such a sum by the number
/// of partitions (at least 1), rounding down.
pub open spec fn spec_partition_totals(s: Seq<PartitionTally>) -> PartitionTotals {
    let n: int = if s.len() == 0 { 1 } else { s.len() as int };
    PartitionTotals {
        total_resource: wrap_u64(tally_sum(s, TallyField::Resources)),
        total_waste: wrap_u64(tally_sum(s, TallyField::Waste)),
        average_tameness_ppm: (wrap_u64(tally_sum(s, TallyField::Tameness)) as int / n) as u64,
        total_herbivores: wrap_u64(tally_sum(s, TallyField::Herbivores)),
        total_predators: wrap_u64(tally_sum(s, TallyField::Predators)),
        total_proto_domestic: wrap_u64(tally_sum(s, TallyField::ProtoDomestic)),
        total_demand: wrap_u64(tally_sum(s, TallyField::Demand)),
        average_cohesion: (wrap_u64(tally_sum(s, TallyField::Cohesion)) as int / n) as u64,
        average_animal_familiarity: (wrap_u64(tally_sum(s, TallyField::Familiarity)) as int / n) as u64,
        average_animal_fear: (wrap_u64(tally_sum(s, TallyField::Fear)) as int / n) as u64,
        average_animal_tolerance: (wrap_u64(tally_sum(s, TallyField::Tolerance)) as int / n) as u64,
    }
}

proof fn lemma_tally_step(s: Seq<PartitionTally>, i: int)
    requires
        0 <= i < s.len(),
    ensures
        forall|f: TallyField| #[trigger] tally_sum(s.take(i + 1), f) == tally_sum(s.take(i), f) + tally_value(s[i], f),
{
    assert(s.take(i + 1).drop_last() =~= s.take(i));
}

/// Adding `v` with `wrapping_add` to a sum kept modulo 2^64 keeps it so.
fn add_wrapped(acc: u64, v: u64, Ghost(total): Ghost<nat>) -> (r: u64)
    requires
        acc == wrap_u64(total),
    ensures
        r == wrap_u64((total + v) as nat),
{
    let r = acc.wrapping_add(v);
    proof {
        let m: int = 0x1_0000_0000_0000_0000;
        vstd::arithmetic::div_mod::lemma_add_mod_noop(total as int, v as int, m);
        vstd::arithmetic::div_mod::lemma_small_mod(v as nat, m as nat);
        let x: int = acc + v;
        if x >= m {
            vstd::arithmetic::div_mod::lemma_small_mod((x - m) as nat, m as nat);
            vstd::arithmetic::div_mod::lemma_mod_add_multiples_vanish(x - m, m);
        } else {
            vstd::arithmetic::div_mod::lemma_small_mod(x as nat, m as nat);
        }
    }
    r
}

/// Totals and averages of the partitions' tallies, each sum kept with
/// wrapping addition in `u64`.
pub fn partition_totals(parts: &[PartitionTally]) -> (t: PartitionTotals)
    ensures
        t == spec_partition_totals(parts@),
{
    let ghost s = parts@;
    let n = parts.len();
    let mut resources: u64 = 0;
    let mut waste: u64 = 0;
    let mut tameness: u64 = 0;
    let mut herbivores: u64 = 0;
    let mut predators: u64 = 0;
    let mut proto: u64 = 0;
    let mut demand: u64 = 0;
    let mut cohesion: u64 = 0;
    let mut familiarity: u64 = 0;
    let mut fear: u64 = 0;
    let mut tolerance: u64 = 0;
    let mut i: usize = 0;
    while i < n
        invariant
            n == s.len(),
            s == parts@,
            0 <= i <= n,
            resources == wrap_u64(tally_sum(s.take(i as int), TallyField::Resources)),
            waste == wrap_u64(tally_sum(s.take(i as int), TallyField::Waste)),
            tameness == wrap_u64(tally_sum(s.take(i as int), TallyField::Tameness)),
            herbivores == wrap_u64(tally_sum(s.take(i as int), TallyField::Herbivores)),
            predators == wrap_u64(tally_sum(s.take(i as int), TallyField::Predators)),
            proto == wrap_u64(tally_sum(s.take(i as int), TallyField::ProtoDomestic)),
            demand == wrap_u64(tally_sum(s.take(i as int), TallyField::Demand)),
            cohesion == wrap_u64(tally_sum(s.take(i as int), TallyField::Cohesion)),
            familiarity == wrap_u64(tally_sum(s.take(i as int), TallyField::Familiarity)),
            fear == wrap_u64(tally_sum(s.take(i as int), TallyField::Fear)),
            tolerance == wrap_u64(tally_sum(s.take(i as int), TallyField::Tolerance)),
        decreases n - i,
    {
        let p = parts[i];
        proof {
            lemma_tally_step(s, i as int);
        }
        let ghost t = s.take(i as int);
        let r: u64 = if p.total_resources > 0 { p.total_resources as u64 } else { 0 };
        resources = add_wrapped(resources, r, Ghost(tally_sum(t, TallyField::Resources)));
        let w: u64 = if p.waste_quantity > 0 { p.waste_quantity as u64 } else { 0 };
        waste = add_wrapped(waste, w, Ghost(tally_sum(t, TallyField::Waste)));
        tameness = add_wrapped(tameness, p.tameness_ppm, Ghost(tally_sum(t, TallyField::Tameness)));
        herbivores = add_wrapped(herbivores, p.herbivore_population, Ghost(tally_sum(t, TallyField::Herbivores)));
        predators = add_wrapped(predators, p.predator_population, Ghost(tally_sum(t, TallyField::Predators)));
        proto = add_wrapped(proto, p.proto_domestic_population, Ghost(tally_sum(t, TallyField::ProtoDomestic)));
        demand = add_wrapped(demand, p.demand, Ghost(tally_sum(t, TallyField::Demand)));
        cohesion = add_wrapped(cohesion, p.cohesion, Ghost(tally_sum(t, TallyField::Cohesion)));
        familiarity = add_wrapped(familiarity, p.animal_familiarity as u64, Ghost(tally_sum(t, TallyField::Familiarity)));
        fear = add_wrapped(fear, p.animal_fear as u64, Ghost(tally_sum(t, TallyField::Fear)));
        tolerance = add_wrapped(tolerance, p.animal_human_tolerance as u64, Ghost(tally_sum(t, TallyField::Tolerance)));
        i = i + 1;
    }
    proof {
        assert(s.take(n as int) =~= s);
    }
    let count: u64 = if n == 0 { 1 } else { n as u64 };
    PartitionTotals {
        total_resource: resources,
        total_waste: waste,
        average_tameness_ppm: tameness / count,
        total_herbivores: herbivores,
        total_predators: predators,
        total_proto_domestic: proto,
        total_demand: demand,
        average_cohesion: cohesion / count,
        average_animal_familiarity: familiarity / count,
        average_animal_fear: fear / count,
        average_animal_tolerance: tolerance / count,
    }
}

} // verus!
