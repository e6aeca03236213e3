use vstd::prelude::*;

use crate::agents::AgentId;

verus! {

/// Identifier of a knowledge item.
#[derive(Debug, Clone, Copy, PartialEq, Eq, PartialOrd, Ord, Hash, Structural)]
pub struct KnowledgeId(pub u64);

/// Kinds of knowledge.
#[derive(Debug, Clone, Copy, PartialEq, Eq, Hash, Structural)]
pub enum KnowledgeType {
    Technique,
    Material,
    Process,
    Ecological,
    Social,
    Medical,
}

/// A piece of knowledge.
#[derive(Debug, Clone)]
pub struct Knowledge {
    pub id: KnowledgeId,
    pub name: String,
    pub knowledge_type: KnowledgeType,
    /// Items that must be known before this one can be discovered.
    pub prerequisites: Vec<KnowledgeId>,
    pub difficulty: u8,
    pub transmission_ease: u8,
    pub decay_rate: u8,
}

/// Statistics about knowledge for metrics.
#[derive(Debug, Clone, Copy, PartialEq, Eq, Structural)]
pub struct KnowledgeStatistics {
    pub total_knowledge_items: u64,
    pub total_known_instances: u64,
    pub average_proficiency: u8,
    pub discoveries_this_tick: u64,
}

impl Default for KnowledgeStatistics {
    fn default() -> (r: Self)
        ensures
            r == (KnowledgeStatistics {
                total_knowledge_items: 0,
                total_known_instances: 0,
                average_proficiency: 0,
                discoveries_this_tick: 0,
            }),
    {
        KnowledgeStatistics {
            total_knowledge_items: 0,
            total_known_instances: 0,
            average_proficiency: 0,
            discoveries_this_tick: 0,
        }
    }
}

/// `k` is the item that a registration makes under `id`.
pub open spec fn is_registered(
    k: Knowledge,
    id: KnowledgeId,
    name: Seq<char>,
    knowledge_type: KnowledgeType,
    prerequisites: Seq<KnowledgeId>,
    difficulty: u8,
    transmission_ease: u8,
    decay_rate: u8,
) -> bool {
    &&& k.id == id
    &&& k.name@ == name
    &&& k.knowledge_type == knowledge_type
    &&& k.prerequisites@ == prerequisites
    &&& k.difficulty == difficulty
    &&& k.transmission_ease == transmission_ease
    &&& k.decay_rate == decay_rate
}

/// Index of the item with id `id`, or -1.
pub open spec fn find_knowledge(s: Seq<Knowledge>, id: KnowledgeId) -> int
    decreases s.len(),
{
    if s.len() == 0 {
        -1
    } else {
        let r = find_knowledge(s.drop_last(), id);
        if r >= 0 {
            r
        } else if s.last().id == id {
            s.len() - 1
        } else {
            -1
        }
    }
}

pub proof fn lemma_find_knowledge(s: Seq<Knowledge>, id: KnowledgeId)
    ensures
        -1 <= find_knowledge(s, id) < s.len(),
        find_knowledge(s, id) >= 0 ==> s[find_knowledge(s, id)].id == id,
        find_knowledge(s, id) < 0 ==> forall|j: int| 0 <= j < s.len() ==> s[j].id != id,
    decreases s.len(),
{
    if s.len() > 0 {
        let t = s.drop_last();
        lemma_find_knowledge(t, id);
        assert(forall|j: int| 0 <= j < t.len() ==> t[j] == s[j]);
    }
}

pub open spec fn knowledge_of_type(s: Seq<Knowledge>, t: KnowledgeType) -> Seq<Knowledge>
    decreases s.len(),
{
    if s.len() == 0 {
        Seq::empty()
    } else if s.last().knowledge_type == t {
        knowledge_of_type(s.drop_last(), t).push(s.last())
    } else {
        knowledge_of_type(s.drop_last(), t)
    }
}

/// Ids strictly increase along the catalog and stay below the next id.
pub open spec fn catalog_ordered(s: Seq<Knowledge>, next_id: u64) -> bool {
    &&& forall|i: int, j: int| 0 <= i < j < s.len() ==> (#[trigger] s[i]).id.0 < (#[trigger] s[j]).id.0
    &&& forall|i: int| 0 <= i < s.len() ==> (#[trigger] s[i]).id.0 < next_id
}

/// The catalog of knowledge items, ordered by id.
#[derive(Debug, Clone)]
pub struct KnowledgeRegistry {
    knowledge_items: Vec<Knowledge>,
    next_id: u64,
}

impl View for KnowledgeRegistry {
    type V = Seq<Knowledge>;

    closed spec fn view(&self) -> Seq<Knowledge> {
        self.knowledge_items@
    }
}

impl Default for KnowledgeRegistry {
    /// An empty registry whose next id is 0.
    fn default() -> (r: Self)
        ensures
            r@ == Seq::<Knowledge>::empty(),
            r.next_knowledge_id() == 0,
            catalog_ordered(r@, r.next_knowledge_id()),
    {
        KnowledgeRegistry { knowledge_items: Vec::new(), next_id: 0 }
    }
}

impl KnowledgeRegistry {
    /// The id the next registration gets.
    pub closed spec fn next_knowledge_id(&self) -> u64 {
        self.next_id
    }

    /// An empty registry whose first id is 1.
    pub fn new() -> (r: Self)
        ensures
            r@ == Seq::<Knowledge>::empty(),
            r.next_knowledge_id() == 1,
            catalog_ordered(r@, r.next_knowledge_id()),
    {
        KnowledgeRegistry { knowledge_items: Vec::new(), next_id: 1 }
    }

    /// Registers an item with all its attributes under the next id.
    pub fn register_with_config(
        &mut self,
        name: &str,
        knowledge_type: KnowledgeType,
        prerequisites: Vec<KnowledgeId>,
        difficulty: u8,
        transmission_ease: u8,
        decay_rate: u8,
    ) -> (id: KnowledgeId)
        requires
            old(self).next_knowledge_id() < u64::MAX,
        ensures
            id == KnowledgeId(old(self).next_knowledge_id()),
            final(self).next_knowledge_id() == old(self).next_knowledge_id() + 1,
            final(self)@.len() == old(self)@.len() + 1,
            final(self)@ == old(self)@.push(final(self)@.last()),
            is_registered(
                final(self)@.last(),
                id,
                name@,
                knowledge_type,
                prerequisites@,
                difficulty,
                transmission_ease,
                decay_rate,
            ),
            catalog_ordered(old(self)@, old(self).next_knowledge_id()) ==> catalog_ordered(final(self)@, final(self).next_knowledge_id()),
    {
        let id = KnowledgeId(self.next_id);
        let knowledge = Knowledge {
            id,
            name: name.to_owned(),
            knowledge_type,
            prerequisites,
            difficulty,
            transmission_ease,
            decay_rate,
        };
        let ghost before = self.knowledge_items@;
        self.knowledge_items.push(knowledge);
        self.next_id = self.next_id + 1;
        proof {
            let items = self.knowledge_items@;
            assert(items =~= before.push(items.last()));
            if catalog_ordered(before, old(self).next_id) {
                assert forall|a: int, b: int| 0 <= a < b < items.len() implies (#[trigger] items[a]).id.0 < (#[trigger] items[b]).id.0 by {
                    assert(items[a] == before[a]);
                    if b < before.len() {
                        assert(items[b] == before[b]);
                    }
                }
                assert forall|a: int| 0 <= a < items.len() implies (#[trigger] items[a]).id.0 < self.next_id by {
                    if a < before.len() {
                        assert(items[a] == before[a]);
                    }
                }
            }
        }
        id
    }

    /// Registers an item with the default attributes (no prerequisites,
    /// difficulty 50, transmission 50, decay 5) under the next id.
    pub fn register(&mut self, name: &str, knowledge_type: KnowledgeType) -> (id: KnowledgeId)
        requires
            old(self).next_knowledge_id() < u64::MAX,
        ensures
            id == KnowledgeId(old(self).next_knowledge_id()),
            final(self).next_knowledge_id() == old(self).next_knowledge_id() + 1,
            final(self)@.len() == old(self)@.len() + 1,
            final(self)@ == old(self)@.push(final(self)@.last()),
            is_registered(final(self)@.last(), id, name@, knowledge_type, Seq::empty(), 50, 50, 5),
            catalog_ordered(old(self)@, old(self).next_knowledge_id()) ==> catalog_ordered(final(self)@, final(self).next_knowledge_id()),
    {
        self.register_with_config(name, knowledge_type, Vec::new(), 50, 50, 5)
    }

    /// The item with id `id`.
    pub fn get(&self, id: KnowledgeId) -> (r: Option<&Knowledge>)
        ensures
            match r {
                Some(k) => find_knowledge(self@, id) >= 0 && *k == self@[find_knowledge(self@, id)],
                None => find_knowledge(self@, id) < 0,
            },
    {
        proof {
            lemma_find_knowledge(self@, id);
        }
        let mut i: usize = 0;
        while i < self.knowledge_items.len()
            invariant
                0 <= i <= self@.len(),
                forall|j: int| 0 <= j < i ==> self@[j].id != id,
            decreases self@.len() - i,
        {
            if self.knowledge_items[i].id.0 == id.0 {
                proof {
                    lemma_find_knowledge(self@, id);
                    assert(find_knowledge(self@, id) == i) by {
                        let f = find_knowledge(self@, id);
                        if f >= 0 && f != i {
                            assert(f > i);
                            assert(self@[f].id == id);
                        }
                        lemma_find_first_knowledge(self@, id, i as int);
                    }
                }
                return Some(&self.knowledge_items[i]);
            }
            i = i + 1;
        }
        None
    }

    /// The items of one type, in id order.
    pub fn by_type(&self, knowledge_type: KnowledgeType) -> (r: Vec<&Knowledge>)
        ensures
            r@.len() == knowledge_of_type(self@, knowledge_type).len(),
            forall|i: int| 0 <= i < r@.len() ==> *(#[trigger] r@[i]) == knowledge_of_type(self@, knowledge_type)[i],
    {
        let mut r: Vec<&Knowledge> = Vec::new();
        let mut i: usize = 0;
        while i < self.knowledge_items.len()
            invariant
                0 <= i <= self@.len(),
                r@.len() == knowledge_of_type(self@.take(i as int), knowledge_type).len(),
                forall|j: int| 0 <= j < r@.len() ==>
                    *(#[trigger] r@[j]) == knowledge_of_type(self@.take(i as int), knowledge_type)[j],
            decreases self@.len() - i,
        {
            proof {
                assert(self@.take(i + 1).drop_last() =~= self@.take(i as int));
            }
            if self.knowledge_items[i].knowledge_type == knowledge_type {
                r.push(&self.knowledge_items[i]);
            }
            i = i + 1;
        }
        proof {
            assert(self@.take(self@.len() as int) =~= self@);
        }
        r
    }

    /// All items, in id order.
    pub fn all(&self) -> (r: &[Knowledge])
        ensures
            r@ == self@,
    {
        self.knowledge_items.as_slice()
    }
}

/// The `j`-th item of the default catalog, registered with ids from `first` on.
pub open spec fn default_catalog_entry(k: Knowledge, j: int, first: u64) -> bool {
    let id = KnowledgeId((first + j) as u64);
    let none = Seq::<KnowledgeId>::empty();
    if j == 0 {
        is_registered(k, id, "Basic Toolmaking"@, KnowledgeType::Technique, none, 50, 50, 5)
    } else if j == 1 {
        is_registered(k, id, "Fire Making"@, KnowledgeType::Technique, none, 50, 50, 5)
    } else if j == 2 {
        is_registered(k, id, "Shelter Building"@, KnowledgeType::Technique, none, 50, 50, 5)
    } else if j == 3 {
        is_registered(k, id, "Stone Working"@, KnowledgeType::Material, none, 50, 50, 5)
    } else if j == 4 {
        is_registered(k, id, "Wood Working"@, KnowledgeType::Material, none, 50, 50, 5)
    } else if j == 5 {
        is_registered(k, id, "Cooking"@, KnowledgeType::Process, seq![KnowledgeId((first + 1) as u64)], 40, 60, 3)
    } else if j == 6 {
        is_registered(k, id, "Pottery"@, KnowledgeType::Process, seq![KnowledgeId((first + 1) as u64)], 60, 40, 2)
    } else if j == 7 {
        is_registered(k, id, "Plant Identification"@, KnowledgeType::Ecological, none, 50, 50, 5)
    } else if j == 8 {
        is_registered(k, id, "Animal Tracking"@, KnowledgeType::Ecological, none, 50, 50, 5)
    } else if j == 9 {
        is_registered(k, id, "Seasonal Cycles"@, KnowledgeType::Ecological, none, 50, 50, 5)
    } else if j == 10 {
        is_registered(k, id, "Basic Rituals"@, KnowledgeType::Social, none, 50, 50, 5)
    } else if j == 11 {
        is_registered(k, id, "Conflict Resolution"@, KnowledgeType::Social, none, 50, 50, 5)
    } else if j == 12 {
        is_registered(k, id, "Herbal Medicine"@, KnowledgeType::Medical, none, 70, 30, 10)
    } else {
        is_registered(
            k,
            id,
            "Advanced Toolmaking"@,
            KnowledgeType::Technique,
            seq![KnowledgeId(first), KnowledgeId((first + 3) as u64)],
            70,
            40,
            4,
        )
    }
}

/// Number of items in the default catalog.
pub open spec fn default_catalog_len() -> nat {
    14
}

impl KnowledgeRegistry {
    /// Registers the default catalog: techniques, materials, processes that
    /// need fire making, ecological, social and medical items, and advanced
    /// toolmaking, which needs toolmaking and stone working.
    pub fn initialize_default_catalog(&mut self)
        requires
            old(self).next_knowledge_id() + default_catalog_len() <= u64::MAX,
        ensures
            final(self).next_knowledge_id() == old(self).next_knowledge_id() + default_catalog_len(),
            final(self)@.len() == old(self)@.len() + default_catalog_len(),
            final(self)@.take(old(self)@.len() as int) == old(self)@,
            forall|j: int| 0 <= j < default_catalog_len() ==>
                default_catalog_entry(#[trigger] final(self)@[old(self)@.len() + j], j, old(self).next_knowledge_id()),
            catalog_ordered(old(self)@, old(self).next_knowledge_id()) ==> catalog_ordered(final(self)@, final(self).next_knowledge_id()),
    {
        let ghost s0 = self@;
        let ghost first = self.next_id;
        let toolmaking = self.register("Basic Toolmaking", KnowledgeType::Technique);
        let ghost a0 = self@.last();
        let fire_making = self.register("Fire Making", KnowledgeType::Technique);
        let ghost a1 = self@.last();
        let _shelter_building = self.register("Shelter Building", KnowledgeType::Technique);
        let ghost a2 = self@.last();
        let stone_working = self.register("Stone Working", KnowledgeType::Material);
        let ghost a3 = self@.last();
        let _wood_working = self.register("Wood Working", KnowledgeType::Material);
        let ghost a4 = self@.last();
        let _cooking = self.register_with_config("Cooking", KnowledgeType::Process, vec![fire_making], 40, 60, 3);
        let ghost a5 = self@.last();
        let _pottery = self.register_with_config("Pottery", KnowledgeType::Process, vec![fire_making], 60, 40, 2);
        let ghost a6 = self@.last();
        let _plant_identification = self.register("Plant Identification", KnowledgeType::Ecological);
        let ghost a7 = self@.last();
        let _animal_tracking = self.register("Animal Tracking", KnowledgeType::Ecological);
        let ghost a8 = self@.last();
        let _seasonal_cycles = self.register("Seasonal Cycles", KnowledgeType::Ecological);
        let ghost a9 = self@.last();
        let _basic_rituals = self.register("Basic Rituals", KnowledgeType::Social);
        let ghost a10 = self@.last();
        let _conflict_resolution = self.register("Conflict Resolution", KnowledgeType::Social);
        let ghost a11 = self@.last();
        let _herbal_medicine = self.register_with_config("Herbal Medicine", KnowledgeType::Medical, vec![], 70, 30, 10);
        let ghost a12 = self@.last();
        let _advanced_tools = self.register_with_config(
            "Advanced Toolmaking",
            KnowledgeType::Technique,
            vec![toolmaking, stone_working],
            70,
            40,
            4,
        );
        let ghost a13 = self@.last();
        proof {
            let added = seq![a0, a1, a2, a3, a4, a5, a6, a7, a8, a9, a10, a11, a12, a13];
            assert(self@ =~= s0 + added);
            assert(default_catalog_entry(added[0], 0, first));
            assert(default_catalog_entry(added[1], 1, first));
            assert(default_catalog_entry(added[2], 2, first));
            assert(default_catalog_entry(added[3], 3, first));
            assert(default_catalog_entry(added[4], 4, first));
            assert(a5.prerequisites@ =~= seq![KnowledgeId((first + 1) as u64)]);
            assert(a6.prerequisites@ =~= seq![KnowledgeId((first + 1) as u64)]);
            assert(a13.prerequisites@ =~= seq![KnowledgeId(first), KnowledgeId((first + 3) as u64)]);
            assert(default_catalog_entry(added[5], 5, first));
            assert(default_catalog_entry(added[6], 6, first));
            assert(default_catalog_entry(added[7], 7, first));
            assert(default_catalog_entry(added[8], 8, first));
            assert(default_catalog_entry(added[9], 9, first));
            assert(default_catalog_entry(added[10], 10, first));
            assert(default_catalog_entry(added[11], 11, first));
            assert(default_catalog_entry(added[12], 12, first));
            assert(default_catalog_entry(added[13], 13, first));
            assert forall|j: int| 0 <= j < 14 implies default_catalog_entry(#[trigger] self@[s0.len() + j], j, first) by {
                assert(self@[s0.len() + j] == added[j]);
            }
            assert(self@.take(s0.len() as int) =~= s0);
        }
    }
}


/// With distinct ids, the first index holding `id` is any index holding it.
proof fn lemma_find_first_knowledge(s: Seq<Knowledge>, id: KnowledgeId, i: int)
    requires
        0 <= i < s.len(),
        s[i].id == id,
        forall|j: int| 0 <= j < i ==> s[j].id != id,
    ensures
        find_knowledge(s, id) == i,
    decreases s.len(),
{
    let t = s.drop_last();
    if i < t.len() {
        assert(t[i] == s[i]);
        assert(forall|j: int| 0 <= j < i ==> t[j] == s[j]);
        lemma_find_first_knowledge(t, id, i);
    } else {
        lemma_find_knowledge(t, id);
        assert(forall|j: int| 0 <= j < t.len() ==> t[j] == s[j]);
    }
}

/// The six stages of a discovery, in order.
#[derive(Debug, Clone, Copy, PartialEq, Eq, PartialOrd, Ord, Hash, Structural)]
pub enum DiscoveryStage {
    AccidentalObservation,
    AffordanceCandidate,
    ProcessSchema,
    Technique,
    CodifiedKnowledge,
    InstitutionalizedPractice,
}

/// The rank of a stage, 1 to 6.
pub open spec fn stage_rank(s: DiscoveryStage) -> u8 {
    match s {
        DiscoveryStage::AccidentalObservation => 1,
        DiscoveryStage::AffordanceCandidate => 2,
        DiscoveryStage::ProcessSchema => 3,
        DiscoveryStage::Technique => 4,
        DiscoveryStage::CodifiedKnowledge => 5,
        DiscoveryStage::InstitutionalizedPractice => 6,
    }
}

/// The stage after `s`; none after the last.
pub open spec fn next_stage(s: DiscoveryStage) -> Option<DiscoveryStage> {
    match s {
        DiscoveryStage::AccidentalObservation => Some(DiscoveryStage::AffordanceCandidate),
        DiscoveryStage::AffordanceCandidate => Some(DiscoveryStage::ProcessSchema),
        DiscoveryStage::ProcessSchema => Some(DiscoveryStage::Technique),
        DiscoveryStage::Technique => Some(DiscoveryStage::CodifiedKnowledge),
        DiscoveryStage::CodifiedKnowledge => Some(DiscoveryStage::InstitutionalizedPractice),
        DiscoveryStage::InstitutionalizedPractice => None,
    }
}

impl DiscoveryStage {
    /// The next stage of the lifecycle.
    pub fn next(self) -> (r: Option<DiscoveryStage>)
        ensures
            r == next_stage(self),
    {
        match self {
            DiscoveryStage::AccidentalObservation => Some(DiscoveryStage::AffordanceCandidate),
            DiscoveryStage::AffordanceCandidate => Some(DiscoveryStage::ProcessSchema),
            DiscoveryStage::ProcessSchema => Some(DiscoveryStage::Technique),
            DiscoveryStage::Technique => Some(DiscoveryStage::CodifiedKnowledge),
            DiscoveryStage::CodifiedKnowledge => Some(DiscoveryStage::InstitutionalizedPractice),
            DiscoveryStage::InstitutionalizedPractice => None,
        }
    }

    /// The rank of the stage, 1 to 6.
    pub fn as_u8(self) -> (r: u8)
        ensures
            r == stage_rank(self),
    {
        match self {
            DiscoveryStage::AccidentalObservation => 1,
            DiscoveryStage::AffordanceCandidate => 2,
            DiscoveryStage::ProcessSchema => 3,
            DiscoveryStage::Technique => 4,
            DiscoveryStage::CodifiedKnowledge => 5,
            DiscoveryStage::InstitutionalizedPractice => 6,
        }
    }
}

/// Each stage but the last leads to one of rank one higher.
pub proof fn lemma_next_stage_rank(s: DiscoveryStage)
    ensures
        next_stage(s) matches Some(t) ==> stage_rank(t) == stage_rank(s) + 1,
        next_stage(s) is None <==> s == DiscoveryStage::InstitutionalizedPractice,
{
}

/// How a discovery came about.
#[derive(Debug, Clone, Copy, PartialEq, Eq, Hash, Structural)]
pub enum DiscoveryMethod {
    Repetition,
    Search,
    Accident,
    SocialTransmission,
}

/// A discovery made by an agent.
#[derive(Debug, Clone, Copy, PartialEq, Eq, Structural)]
pub struct DiscoveryEvent {
    pub agent_id: AgentId,
    pub knowledge_id: KnowledgeId,
    pub method: DiscoveryMethod,
    pub tick: u64,
}

/// Progress towards discovering one item.
#[derive(Debug, Clone, Copy, PartialEq, Eq, Structural)]
pub struct DiscoveryProgress {
    pub stage: DiscoveryStage,
    /// Progress within the current stage (0-100).
    pub stage_progress: u8,
    pub total_progress: u32,
    pub first_observed_tick: u64,
    pub current_stage_tick: u64,
}

pub open spec fn spec_new_progress(tick: u64) -> DiscoveryProgress {
    DiscoveryProgress {
        stage: DiscoveryStage::AccidentalObservation,
        stage_progress: 0,
        total_progress: 0,
        first_observed_tick: tick,
        current_stage_tick: tick,
    }
}

/// Progress after adding `amount`: the stage progress grows (at most 100)
/// and, once it reaches `50 + difficulty / 4`, the stage advances if it can
/// and its progress restarts at 0.
pub open spec fn spec_add_progress(p: DiscoveryProgress, amount: u8, difficulty: u8, tick: u64) -> DiscoveryProgress {
    let sp = min_u8(p.stage_progress + amount, 100);
    let q = DiscoveryProgress { stage_progress: sp, total_progress: (p.total_progress + amount) as u32, ..p };
    if sp >= 50 + difficulty / 4 && next_stage(p.stage) is Some {
        DiscoveryProgress { stage: next_stage(p.stage).unwrap(), stage_progress: 0, current_stage_tick: tick, ..q }
    } else {
        q
    }
}

/// Whether adding `amount` advances the stage.
pub open spec fn progress_advances(p: DiscoveryProgress, amount: u8, difficulty: u8) -> bool {
    min_u8(p.stage_progress + amount, 100) >= 50 + difficulty / 4 && next_stage(p.stage) is Some
}

pub open spec fn min_u8(v: int, cap: int) -> u8 {
    (if v <= cap { v } else { cap }) as u8
}

/// The additions of `add_progress` stay within their types.
pub open spec fn progress_ok(p: DiscoveryProgress, amount: u8) -> bool {
    p.stage_progress + amount <= u8::MAX && p.total_progress + amount <= u32::MAX
}

impl DiscoveryProgress {
    /// Progress first observed at `tick`, at the first stage.
    pub fn new(tick: u64) -> (p: Self)
        ensures
            p == spec_new_progress(tick),
    {
        DiscoveryProgress {
            stage: DiscoveryStage::AccidentalObservation,
            stage_progress: 0,
            total_progress: 0,
            first_observed_tick: tick,
            current_stage_tick: tick,
        }
    }

    /// Adds progress; returns whether the stage advanced, and the stage it left.
    pub fn add_progress(&mut self, amount: u8, difficulty: u8, tick: u64) -> (r: (bool, Option<DiscoveryStage>))
        requires
            progress_ok(*old(self), amount),
        ensures
            *final(self) == spec_add_progress(*old(self), amount, difficulty, tick),
            r == (if progress_advances(*old(self), amount, difficulty) {
                (true, Some(old(self).stage))
            } else {
                (false, None)
            }),
    {
        let sum = self.stage_progress + amount;
        self.stage_progress = if sum <= 100 { sum } else { 100 };
        self.total_progress = self.total_progress + amount as u32;
        let threshold = 50 + difficulty / 4;
        if self.stage_progress >= threshold {
            match self.stage.next() {
                Some(next_stage) => {
                    let old_stage = self.stage;
                    self.stage = next_stage;
                    self.stage_progress = 0;
                    self.current_stage_tick = tick;
                    return (true, Some(old_stage));
                },
                None => {},
            }
        }
        (false, None)
    }

    /// Whether the item is discovered: the stage is technique or later.
    pub fn is_discovered(&self) -> (b: bool)
        ensures
            b == (stage_rank(self.stage) >= 4),
    {
        self.stage.as_u8() >= 4
    }
}

/// Index of the first entry with key `k`, or -1.
pub open spec fn find_key<V>(s: Seq<(KnowledgeId, V)>, k: KnowledgeId) -> int
    decreases s.len(),
{
    if s.len() == 0 {
        -1
    } else {
        let r = find_key(s.drop_last(), k);
        if r >= 0 {
            r
        } else if s.last().0 == k {
            s.len() - 1
        } else {
            -1
        }
    }
}

pub proof fn lemma_find_key<V>(s: Seq<(KnowledgeId, V)>, k: KnowledgeId)
    ensures
        -1 <= find_key(s, k) < s.len(),
        find_key(s, k) >= 0 ==> s[find_key(s, k)].0 == k,
        find_key(s, k) >= 0 ==> forall|j: int| 0 <= j < find_key(s, k) ==> s[j].0 != k,
        find_key(s, k) < 0 ==> forall|j: int| 0 <= j < s.len() ==> s[j].0 != k,
    decreases s.len(),
{
    if s.len() > 0 {
        let t = s.drop_last();
        lemma_find_key(t, k);
        assert(forall|j: int| 0 <= j < t.len() ==> t[j] == s[j]);
    }
}

pub open spec fn lookup_key<V>(s: Seq<(KnowledgeId, V)>, k: KnowledgeId) -> Option<V> {
    let i = find_key(s, k);
    if i >= 0 {
        Some(s[i].1)
    } else {
        None
    }
}

/// The table after storing `v` under `k` (in place, or appended).
pub open spec fn insert_key<V>(s: Seq<(KnowledgeId, V)>, k: KnowledgeId, v: V) -> Seq<(KnowledgeId, V)> {
    let i = find_key(s, k);
    if i >= 0 {
        s.update(i, (k, v))
    } else {
        s.push((k, v))
    }
}

/// The table without its entry under `k`, others in order.
pub open spec fn remove_key<V>(s: Seq<(KnowledgeId, V)>, k: KnowledgeId) -> Seq<(KnowledgeId, V)> {
    let i = find_key(s, k);
    if i >= 0 {
        s.remove(i)
    } else {
        s
    }
}

/// A table from knowledge ids to values, in insertion order.
#[derive(Debug, Clone, PartialEq, Eq)]
pub struct KeyedTable<V> {
    entries: Vec<(KnowledgeId, V)>,
}

impl<V> View for KeyedTable<V> {
    type V = Seq<(KnowledgeId, V)>;

    closed spec fn view(&self) -> Seq<(KnowledgeId, V)> {
        self.entries@
    }
}

impl<V: Copy> KeyedTable<V> {
    pub fn new() -> (t: Self)
        ensures
            t@ == Seq::<(KnowledgeId, V)>::empty(),
    {
        KeyedTable { entries: Vec::new() }
    }

    pub fn len(&self) -> (n: usize)
        ensures
            n == self@.len(),
    {
        self.entries.len()
    }

    fn index_of(&self, k: KnowledgeId) -> (r: Option<usize>)
        ensures
            match r {
                Some(i) => i < self@.len() && find_key(self@, k) == i as int,
                None => find_key(self@, k) == -1,
            },
    {
        proof { lemma_find_key(self@, k); }
        let mut i: usize = 0;
        while i < self.entries.len()
            invariant
                0 <= i <= self@.len(),
                forall|j: int| 0 <= j < i ==> self@[j].0 != k,
            decreases self@.len() - i,
        {
            if self.entries[i].0.0 == k.0 {
                proof { lemma_find_key(self@, k); }
                return Some(i);
            }
            i = i + 1;
        }
        None
    }

    pub fn get(&self, k: KnowledgeId) -> (r: Option<&V>)
        ensures
            match r {
                Some(v) => lookup_key(self@, k) == Some(*v),
                None => lookup_key(self@, k) is None,
            },
    {
        match self.index_of(k) {
            Some(i) => Some(&self.entries[i].1),
            None => None,
        }
    }

    pub fn contains_key(&self, k: KnowledgeId) -> (b: bool)
        ensures
            b == (lookup_key(self@, k) is Some),
    {
        self.index_of(k).is_some()
    }

    /// Stores `v` under `k`.
    pub fn insert(&mut self, k: KnowledgeId, v: V)
        ensures
            final(self)@ == insert_key(old(self)@, k, v),
    {
        match self.index_of(k) {
            Some(i) => {
                self.entries.set(i, (k, v));
            },
            None => {
                self.entries.push((k, v));
            },
        }
    }

    /// Removes the entry under `k`, if any.
    pub fn remove(&mut self, k: KnowledgeId)
        ensures
            final(self)@ == remove_key(old(self)@, k),
    {
        match self.index_of(k) {
            Some(i) => {
                self.entries.remove(i);
            },
            None => {},
        }
    }

    /// The entry at a position.
    pub fn entry_at(&self, i: usize) -> (e: (KnowledgeId, V))
        requires
            i < self@.len(),
        ensures
            e == self@[i as int],
    {
        self.entries[i]
    }
}

/// Ids strictly increase along the sequence.
pub open spec fn ids_sorted(s: Seq<KnowledgeId>) -> bool {
    forall|i: int, j: int| 0 <= i < j < s.len() ==> (#[trigger] s[i]).0 < (#[trigger] s[j]).0
}

/// Index of the first id not below `k`, or the length.
pub open spec fn lower_bound(s: Seq<KnowledgeId>, k: KnowledgeId) -> int
    decreases s.len(),
{
    if s.len() == 0 {
        0
    } else {
        let r = lower_bound(s.drop_last(), k);
        if r < s.len() - 1 {
            r
        } else if s.last().0 >= k.0 {
            s.len() - 1
        } else {
            s.len() as int
        }
    }
}

pub proof fn lemma_lower_bound(s: Seq<KnowledgeId>, k: KnowledgeId)
    requires
        ids_sorted(s),
    ensures
        0 <= lower_bound(s, k) <= s.len(),
        forall|j: int| 0 <= j < lower_bound(s, k) ==> s[j].0 < k.0,
        forall|j: int| lower_bound(s, k) <= j < s.len() ==> s[j].0 >= k.0,
    decreases s.len(),
{
    if s.len() > 0 {
        let t = s.drop_last();
        assert(forall|j: int| 0 <= j < t.len() ==> t[j] == s[j]);
        assert(ids_sorted(t)) by {
            assert forall|i: int, j: int| 0 <= i < j < t.len() implies (#[trigger] t[i]).0 < (#[trigger] t[j]).0 by {
                assert(t[i] == s[i] && t[j] == s[j]);
            }
        }
        lemma_lower_bound(t, k);
        let r = lower_bound(t, k);
        if r < t.len() {
            assert(s[r].0 < s[s.len() - 1].0);
            assert(s[r] == t[r]);
        }
    }
}

/// The set after adding `k`, kept in increasing order.
pub open spec fn set_insert(s: Seq<KnowledgeId>, k: KnowledgeId) -> Seq<KnowledgeId> {
    if s.contains(k) {
        s
    } else {
        s.insert(lower_bound(s, k), k)
    }
}

/// The set without `k`.
pub open spec fn set_remove(s: Seq<KnowledgeId>, k: KnowledgeId) -> Seq<KnowledgeId> {
    if s.contains(k) {
        s.remove(lower_bound(s, k))
    } else {
        s
    }
}

/// Adding to and removing from a sorted set keep it sorted, and do what they say.
pub proof fn lemma_set_ops(s: Seq<KnowledgeId>, k: KnowledgeId)
    requires
        ids_sorted(s),
    ensures
        ids_sorted(set_insert(s, k)),
        ids_sorted(set_remove(s, k)),
        set_insert(s, k).contains(k),
        !set_remove(s, k).contains(k),
        forall|x: KnowledgeId| x != k ==> (set_insert(s, k).contains(x) <==> s.contains(x)),
        forall|x: KnowledgeId| x != k ==> (set_remove(s, k).contains(x) <==> s.contains(x)),
{
    lemma_lower_bound(s, k);
    let p = lower_bound(s, k);
    if !s.contains(k) {
        let t = s.insert(p, k);
        assert(t[p] == k);
        assert forall|i: int, j: int| 0 <= i < j < t.len() implies (#[trigger] t[i]).0 < (#[trigger] t[j]).0 by {
            if j < p {
                assert(t[i] == s[i] && t[j] == s[j]);
            } else if j == p {
                assert(t[i] == s[i]);
            } else if i < p {
                assert(t[i] == s[i] && t[j] == s[j - 1]);
            } else if i == p {
                assert(t[j] == s[j - 1]);
                assert(s[j - 1] != k);
            } else {
                assert(t[i] == s[i - 1] && t[j] == s[j - 1]);
            }
        }
        assert forall|x: KnowledgeId| x != k implies (t.contains(x) <==> s.contains(x)) by {
            if t.contains(x) {
                let i = choose|i: int| 0 <= i < t.len() && t[i] == x;
                if i < p {
                    assert(s[i] == x);
                } else {
                    assert(s[i - 1] == x);
                }
            }
            if s.contains(x) {
                let i = choose|i: int| 0 <= i < s.len() && s[i] == x;
                if i < p {
                    assert(t[i] == x);
                } else {
                    assert(t[i + 1] == x);
                }
            }
        }
    } else {
        let w = choose|i: int| 0 <= i < s.len() && s[i] == k;
        assert(w == p) by {
            if w < p {
                assert(s[w].0 < k.0);
            }
            if w > p && p < s.len() {
                assert(s[p].0 < s[w].0);
            }
        }
        let t = s.remove(p);
        assert forall|i: int, j: int| 0 <= i < j < t.len() implies (#[trigger] t[i]).0 < (#[trigger] t[j]).0 by {
            let i2 = if i < p { i } else { i + 1 };
            let j2 = if j < p { j } else { j + 1 };
            assert(t[i] == s[i2] && t[j] == s[j2]);
        }
        assert forall|x: KnowledgeId| x != k implies (t.contains(x) <==> s.contains(x)) by {
            if t.contains(x) {
                let i = choose|i: int| 0 <= i < t.len() && t[i] == x;
                let i2 = if i < p { i } else { i + 1 };
                assert(s[i2] == x);
            }
            if s.contains(x) {
                let i = choose|i: int| 0 <= i < s.len() && s[i] == x;
                assert(i != p);
                if i < p {
                    assert(t[i] == x);
                } else {
                    assert(t[i - 1] == x);
                }
            }
        }
        assert(!t.contains(k)) by {
            if t.contains(k) {
                let i = choose|i: int| 0 <= i < t.len() && t[i] == k;
                let i2 = if i < p { i } else { i + 1 };
                assert(s[i2] == k);
                assert(s[i2].0 == s[p].0);
            }
        }
    }
}

/// A set of knowledge ids kept in increasing order.
#[derive(Debug, Clone, PartialEq, Eq)]
pub struct IdSet {
    ids: Vec<KnowledgeId>,
}

impl View for IdSet {
    type V = Seq<KnowledgeId>;

    closed spec fn view(&self) -> Seq<KnowledgeId> {
        self.ids@
    }
}

impl IdSet {
    pub fn new() -> (s: Self)
        ensures
            s@ == Seq::<KnowledgeId>::empty(),
    {
        IdSet { ids: Vec::new() }
    }

    pub fn len(&self) -> (n: usize)
        ensures
            n == self@.len(),
    {
        self.ids.len()
    }

    /// The position where `k` is or would go.
    fn position(&self, k: KnowledgeId) -> (p: usize)
        requires
            ids_sorted(self@),
        ensures
            p == lower_bound(self@, k),
    {
        proof {
            lemma_lower_bound(self@, k);
        }
        let mut i: usize = 0;
        while i < self.ids.len() && self.ids[i].0 < k.0
            invariant
                ids_sorted(self@),
                0 <= i <= self@.len(),
                forall|j: int| 0 <= j < i ==> self@[j].0 < k.0,
                0 <= lower_bound(self@, k) <= self@.len(),
                forall|j: int| 0 <= j < lower_bound(self@, k) ==> self@[j].0 < k.0,
                forall|j: int| lower_bound(self@, k) <= j < self@.len() ==> self@[j].0 >= k.0,
            decreases self@.len() - i,
        {
            i = i + 1;
        }
        proof {
            let lb = lower_bound(self@, k);
            if i < lb {
                assert(self@[i as int].0 < k.0);
            }
            if lb < i {
                assert(self@[lb].0 < k.0);
            }
        }
        i
    }

    pub fn contains(&self, k: KnowledgeId) -> (b: bool)
        requires
            ids_sorted(self@),
        ensures
            b == self@.contains(k),
    {
        let p = self.position(k);
        proof {
            lemma_lower_bound(self@, k);
        }
        if p < self.ids.len() && self.ids[p].0 == k.0 {
            assert(self@[p as int] == k);
            true
        } else {
            assert(!self@.contains(k)) by {
                if self@.contains(k) {
                    let w = choose|i: int| 0 <= i < self@.len() && self@[i] == k;
                    if w < p {
                        assert(self@[w].0 < k.0);
                    } else {
                        assert(self@[p as int].0 <= self@[w].0);
                    }
                }
            }
            false
        }
    }

    /// Adds `k`, keeping the order.
    pub fn insert(&mut self, k: KnowledgeId)
        requires
            ids_sorted(old(self)@),
        ensures
            final(self)@ == set_insert(old(self)@, k),
            ids_sorted(final(self)@),
    {
        proof {
            lemma_set_ops(self@, k);
        }
        if !self.contains(k) {
            let p = self.position(k);
            self.ids.insert(p, k);
        }
    }

    /// Removes `k`, if present.
    pub fn remove(&mut self, k: KnowledgeId)
        requires
            ids_sorted(old(self)@),
        ensures
            final(self)@ == set_remove(old(self)@, k),
            ids_sorted(final(self)@),
    {
        proof {
            lemma_set_ops(self@, k);
        }
        if self.contains(k) {
            let p = self.position(k);
            self.ids.remove(p);
        }
    }

    pub fn as_slice(&self) -> (r: &[KnowledgeId])
        ensures
            r@ == self@,
    {
        self.ids.as_slice()
    }
}

/// Number of discovery entries at `stage`.
pub open spec fn count_stage(s: Seq<(KnowledgeId, DiscoveryProgress)>, stage: DiscoveryStage) -> nat
    decreases s.len(),
{
    if s.len() == 0 {
        0
    } else {
        count_stage(s.drop_last(), stage) + if s.last().1.stage == stage { 1nat } else { 0nat }
    }
}

pub open spec fn stage_entry(s: Seq<(KnowledgeId, DiscoveryProgress)>, stage: DiscoveryStage) -> Seq<(DiscoveryStage, usize)> {
    if count_stage(s, stage) > 0 {
        seq![(stage, count_stage(s, stage) as usize)]
    } else {
        Seq::empty()
    }
}

/// For each stage that some entry is at, in stage order, the number of entries there.
pub open spec fn stage_count_entries(s: Seq<(KnowledgeId, DiscoveryProgress)>) -> Seq<(DiscoveryStage, usize)> {
    stage_entry(s, DiscoveryStage::AccidentalObservation) + stage_entry(s, DiscoveryStage::AffordanceCandidate)
        + stage_entry(s, DiscoveryStage::ProcessSchema) + stage_entry(s, DiscoveryStage::Technique)
        + stage_entry(s, DiscoveryStage::CodifiedKnowledge) + stage_entry(
        s,
        DiscoveryStage::InstitutionalizedPractice,
    )
}

/// Counts of discovery entries per stage, in stage order.
#[derive(Debug, Clone, PartialEq, Eq)]
pub struct StageCounts {
    entries: Vec<(DiscoveryStage, usize)>,
}

impl View for StageCounts {
    type V = Seq<(DiscoveryStage, usize)>;

    closed spec fn view(&self) -> Seq<(DiscoveryStage, usize)> {
        self.entries@
    }
}

/// The count recorded for `stage`, if any.
pub open spec fn stage_lookup(s: Seq<(DiscoveryStage, usize)>, stage: DiscoveryStage) -> Option<usize>
    decreases s.len(),
{
    if s.len() == 0 {
        None
    } else {
        match stage_lookup(s.drop_last(), stage) {
            Some(c) => Some(c),
            None => if s.last().0 == stage { Some(s.last().1) } else { None },
        }
    }
}

impl StageCounts {
    /// The count for `stage`; none when no entry is at that stage.
    pub fn get(&self, stage: &DiscoveryStage) -> (r: Option<&usize>)
        ensures
            match r {
                Some(c) => stage_lookup(self@, *stage) == Some(*c),
                None => stage_lookup(self@, *stage) is None,
            },
    {
        let mut i: usize = 0;
        while i < self.entries.len()
            invariant
                0 <= i <= self@.len(),
                stage_lookup(self@.take(i as int), *stage) is None,
            decreases self@.len() - i,
        {
            proof {
                assert(self@.take(i + 1).drop_last() =~= self@.take(i as int));
            }
            if self.entries[i].0 == *stage {
                proof {
                    lemma_stage_lookup_prefix(self@, *stage, i as int + 1);
                }
                return Some(&self.entries[i].1);
            }
            i = i + 1;
        }
        proof {
            assert(self@.take(self@.len() as int) =~= self@);
        }
        None
    }

    pub fn len(&self) -> (n: usize)
        ensures
            n == self@.len(),
    {
        self.entries.len()
    }

    pub fn entries(&self) -> (r: &[(DiscoveryStage, usize)])
        ensures
            r@ == self@,
    {
        self.entries.as_slice()
    }
}

/// A lookup that succeeds on a prefix gives the same result on the whole.
proof fn lemma_stage_lookup_prefix(s: Seq<(DiscoveryStage, usize)>, stage: DiscoveryStage, n: int)
    requires
        0 <= n <= s.len(),
        stage_lookup(s.take(n), stage) is Some,
    ensures
        stage_lookup(s, stage) == stage_lookup(s.take(n), stage),
    decreases s.len(),
{
    if n < s.len() {
        assert(s.drop_last().take(n) =~= s.take(n));
        lemma_stage_lookup_prefix(s.drop_last(), stage, n);
    } else {
        assert(s.take(n) =~= s);
    }
}

/// One decay step on (known, proficiency, progress) for item `id`: the
/// proficiency drops by `rate` (not below 0) and an item at 0 is forgotten.
pub open spec fn decay_one(
    st: (Seq<KnowledgeId>, Seq<(KnowledgeId, u8)>, Seq<(KnowledgeId, DiscoveryProgress)>),
    id: KnowledgeId,
    rate: u8,
) -> (Seq<KnowledgeId>, Seq<(KnowledgeId, u8)>, Seq<(KnowledgeId, DiscoveryProgress)>) {
    match lookup_key(st.1, id) {
        None => st,
        Some(v) => {
            let nv: u8 = if v >= rate { (v - rate) as u8 } else { 0 };
            if nv == 0 {
                (set_remove(st.0, id), remove_key(st.1, id), remove_key(st.2, id))
            } else {
                (st.0, insert_key(st.1, id, nv), st.2)
            }
        },
    }
}

/// The ids last used more than 1000 ticks before `now`, in table order.
pub open spec fn stale_ids(used: Seq<(KnowledgeId, u64)>, now: u64) -> Seq<KnowledgeId>
    decreases used.len(),
{
    if used.len() == 0 {
        Seq::empty()
    } else if now - used.last().1 > 1000 {
        stale_ids(used.drop_last(), now).push(used.last().0)
    } else {
        stale_ids(used.drop_last(), now)
    }
}

pub open spec fn decay_all(
    st: (Seq<KnowledgeId>, Seq<(KnowledgeId, u8)>, Seq<(KnowledgeId, DiscoveryProgress)>),
    ids: Seq<KnowledgeId>,
    rate: u8,
) -> (Seq<KnowledgeId>, Seq<(KnowledgeId, u8)>, Seq<(KnowledgeId, DiscoveryProgress)>)
    decreases ids.len(),
{
    if ids.len() == 0 {
        st
    } else {
        decay_one(decay_all(st, ids.drop_last(), rate), ids.last(), rate)
    }
}

/// Sum of the proficiencies.
pub open spec fn proficiency_sum(s: Seq<(KnowledgeId, u8)>) -> nat
    decreases s.len(),
{
    if s.len() == 0 { 0 } else { proficiency_sum(s.drop_last()) + s.last().1 as nat }
}

proof fn lemma_proficiency_sum_prefix(s: Seq<(KnowledgeId, u8)>, n: int)
    requires
        0 <= n <= s.len(),
    ensures
        proficiency_sum(s.take(n)) <= proficiency_sum(s),
    decreases s.len(),
{
    if n < s.len() {
        assert(s.drop_last().take(n) =~= s.take(n));
        lemma_proficiency_sum_prefix(s.drop_last(), n);
    } else {
        assert(s.take(n) =~= s);
    }
}

/// What an agent knows: the items it knows (in id order), its proficiency
/// in each, its progress towards each discovery, and when it last used each.
#[derive(Debug, Clone, PartialEq, Eq)]
pub struct AgentKnowledge {
    known: IdSet,
    proficiency: KeyedTable<u8>,
    discovery_progress: KeyedTable<DiscoveryProgress>,
    last_used: KeyedTable<u64>,
}

impl AgentKnowledge {
    pub closed spec fn known_ids(&self) -> Seq<KnowledgeId> {
        self.known@
    }

    pub closed spec fn proficiency_table(&self) -> Seq<(KnowledgeId, u8)> {
        self.proficiency@
    }

    pub closed spec fn progress_table(&self) -> Seq<(KnowledgeId, DiscoveryProgress)> {
        self.discovery_progress@
    }

    pub closed spec fn used_table(&self) -> Seq<(KnowledgeId, u64)> {
        self.last_used@
    }

    /// The known items are kept in increasing id order.
    pub open spec fn wf(&self) -> bool {
        ids_sorted(self.known_ids())
    }

    /// An agent that knows nothing.
    pub fn new() -> (a: Self)
        ensures
            a.wf(),
            a.known_ids() == Seq::<KnowledgeId>::empty(),
            a.proficiency_table() == Seq::<(KnowledgeId, u8)>::empty(),
            a.progress_table() == Seq::<(KnowledgeId, DiscoveryProgress)>::empty(),
            a.used_table() == Seq::<(KnowledgeId, u64)>::empty(),
    {
        AgentKnowledge {
            known: IdSet::new(),
            proficiency: KeyedTable::new(),
            discovery_progress: KeyedTable::new(),
            last_used: KeyedTable::new(),
        }
    }

    /// Whether the agent knows `id` (has reached the technique stage).
    pub fn knows(&self, id: KnowledgeId) -> (b: bool)
        requires
            self.wf(),
        ensures
            b == self.known_ids().contains(id),
    {
        self.known.contains(id)
    }

    /// The discovery stage reached for `id`, if discovery has started.
    pub fn discovery_stage(&self, id: KnowledgeId) -> (r: Option<DiscoveryStage>)
        ensures
            r == (match lookup_key(self.progress_table(), id) {
                Some(p) => Some(p.stage),
                None => None,
            }),
    {
        match self.discovery_progress.get(id) {
            Some(p) => Some(p.stage),
            None => None,
        }
    }

    /// Learns `id`: it becomes known, with proficiency 10 unless it had one,
    /// used at `tick`, and its discovery is at least at the technique stage.
    pub fn learn(&mut self, id: KnowledgeId, tick: u64)
        requires
            old(self).wf(),
        ensures
            final(self).wf(),
            final(self).known_ids() == set_insert(old(self).known_ids(), id),
            final(self).proficiency_table() == (if lookup_key(old(self).proficiency_table(), id) is Some {
                old(self).proficiency_table()
            } else {
                insert_key(old(self).proficiency_table(), id, 10u8)
            }),
            final(self).used_table() == insert_key(old(self).used_table(), id, tick),
            final(self).progress_table() == (match lookup_key(old(self).progress_table(), id) {
                Some(p) => if stage_rank(p.stage) < 4 {
                    insert_key(
                        old(self).progress_table(),
                        id,
                        DiscoveryProgress { stage: DiscoveryStage::Technique, current_stage_tick: tick, ..p },
                    )
                } else {
                    old(self).progress_table()
                },
                None => insert_key(
                    old(self).progress_table(),
                    id,
                    DiscoveryProgress {
                        stage: DiscoveryStage::Technique,
                        current_stage_tick: tick,
                        ..spec_new_progress(tick)
                    },
                ),
            }),
    {
        self.known.insert(id);
        if !self.proficiency.contains_key(id) {
            self.proficiency.insert(id, 10);
        }
        self.last_used.insert(id, tick);
        match self.discovery_progress.get(id) {
            Some(p) => {
                if p.stage.as_u8() < 4 {
                    let mut q = *p;
                    q.stage = DiscoveryStage::Technique;
                    q.current_stage_tick = tick;
                    self.discovery_progress.insert(id, q);
                }
            },
            None => {
                let mut progress = DiscoveryProgress::new(tick);
                progress.stage = DiscoveryStage::Technique;
                progress.current_stage_tick = tick;
                self.discovery_progress.insert(id, progress);
            },
        }
    }

    /// The proficiency in `id`, 0 when there is none.
    pub fn proficiency(&self, id: KnowledgeId) -> (p: u8)
        ensures
            p == (match lookup_key(self.proficiency_table(), id) {
                Some(v) => v,
                None => 0u8,
            }),
    {
        match self.proficiency.get(id) {
            Some(v) => *v,
            None => 0,
        }
    }

    /// Practising a known item raises its proficiency by one (at most 100,
    /// starting from 10 when it had none) and records its use at `tick`;
    /// practising an unknown item does nothing.
    pub fn practice(&mut self, id: KnowledgeId, tick: u64)
        requires
            old(self).wf(),
        ensures
            final(self).wf(),
            final(self).known_ids() == old(self).known_ids(),
            final(self).progress_table() == old(self).progress_table(),
            old(self).known_ids().contains(id) ==> {
                let cur: int = match lookup_key(old(self).proficiency_table(), id) {
                    Some(v) => v as int,
                    None => 10,
                };
                &&& final(self).proficiency_table() == insert_key(old(self).proficiency_table(), id, min_u8(cur + 1, 100))
                &&& final(self).used_table() == insert_key(old(self).used_table(), id, tick)
            },
            !old(self).known_ids().contains(id) ==> {
                &&& final(self).proficiency_table() == old(self).proficiency_table()
                &&& final(self).used_table() == old(self).used_table()
            },
    {
        if self.known.contains(id) {
            let cur: u8 = match self.proficiency.get(id) {
                Some(v) => *v,
                None => 10,
            };
            let next: u8 = if cur >= 100 { 100 } else { cur + 1 };
            self.proficiency.insert(id, next);
            self.last_used.insert(id, tick);
        }
    }

    /// Starts discovery of `id` at `tick`, unless it has started already.
    pub fn init_discovery(&mut self, id: KnowledgeId, tick: u64)
        ensures
            final(self).progress_table() == (if lookup_key(old(self).progress_table(), id) is Some {
                old(self).progress_table()
            } else {
                insert_key(old(self).progress_table(), id, spec_new_progress(tick))
            }),
            final(self).known_ids() == old(self).known_ids(),
            final(self).proficiency_table() == old(self).proficiency_table(),
            final(self).used_table() == old(self).used_table(),
    {
        if !self.discovery_progress.contains_key(id) {
            self.discovery_progress.insert(id, DiscoveryProgress::new(tick));
        }
    }

    /// Adds discovery progress towards `id` (starting its discovery at `tick`
    /// if needed); once it reaches the technique stage the item becomes known,
    /// with proficiency 10 unless it had one, used at `tick`. Returns whether
    /// the stage advanced, and the stage it left.
    pub fn add_discovery_progress(&mut self, id: KnowledgeId, amount: u8, difficulty: u8, tick: u64) -> (r: (
        bool,
        Option<DiscoveryStage>,
    ))
        requires
            old(self).wf(),
            progress_ok(
                match lookup_key(old(self).progress_table(), id) {
                    Some(p) => p,
                    None => spec_new_progress(tick),
                },
                amount,
            ),
        ensures
            final(self).wf(),
            ({
                let p0 = match lookup_key(old(self).progress_table(), id) {
                    Some(p) => p,
                    None => spec_new_progress(tick),
                };
                let p1 = spec_add_progress(p0, amount, difficulty, tick);
                let learned = stage_rank(p1.stage) >= 4 && !old(self).known_ids().contains(id);
                &&& r == (if progress_advances(p0, amount, difficulty) {
                    (true, Some(p0.stage))
                } else {
                    (false, None)
                })
                &&& final(self).progress_table() == insert_key(old(self).progress_table(), id, p1)
                &&& final(self).known_ids() == (if learned {
                    set_insert(old(self).known_ids(), id)
                } else {
                    old(self).known_ids()
                })
                &&& final(self).proficiency_table() == (if learned && lookup_key(old(self).proficiency_table(), id) is None {
                    insert_key(old(self).proficiency_table(), id, 10u8)
                } else {
                    old(self).proficiency_table()
                })
                &&& final(self).used_table() == (if learned {
                    insert_key(old(self).used_table(), id, tick)
                } else {
                    old(self).used_table()
                })
            }),
    {
        let mut progress: DiscoveryProgress = match self.discovery_progress.get(id) {
            Some(p) => *p,
            None => DiscoveryProgress::new(tick),
        };
        let r = progress.add_progress(amount, difficulty, tick);
        self.discovery_progress.insert(id, progress);
        if progress.is_discovered() && !self.known.contains(id) {
            self.known.insert(id);
            if !self.proficiency.contains_key(id) {
                self.proficiency.insert(id, 10);
            }
            self.last_used.insert(id, tick);
        }
        r
    }

    /// The discovery progress towards `id`.
    pub fn get_discovery_progress(&self, id: KnowledgeId) -> (r: Option<&DiscoveryProgress>)
        ensures
            match r {
                Some(p) => lookup_key(self.progress_table(), id) == Some(*p),
                None => lookup_key(self.progress_table(), id) is None,
            },
    {
        self.discovery_progress.get(id)
    }

    /// Whether `id` is known.
    pub fn ready_to_discover(&self, id: KnowledgeId) -> (b: bool)
        requires
            self.wf(),
        ensures
            b == self.known_ids().contains(id),
    {
        self.known.contains(id)
    }

    /// Decays the items last used more than 1000 ticks before `current_tick`:
    /// each loses `decay_rate` proficiency, and one that reaches 0 is forgotten
    /// (no longer known, no proficiency, no discovery progress).
    pub fn apply_decay(&mut self, current_tick: u64, decay_rate: u8)
        requires
            old(self).wf(),
        ensures
            final(self).wf(),
            ({
                let r = decay_all(
                    (old(self).known_ids(), old(self).proficiency_table(), old(self).progress_table()),
                    stale_ids(old(self).used_table(), current_tick),
                    decay_rate,
                );
                &&& final(self).known_ids() == r.0
                &&& final(self).proficiency_table() == r.1
                &&& final(self).progress_table() == r.2
            }),
            final(self).used_table() == old(self).used_table(),
    {
        let ghost u = self.last_used@;
        let mut to_decay: Vec<KnowledgeId> = Vec::new();
        let n = self.last_used.len();
        let mut i: usize = 0;
        while i < n
            invariant
                u == self.last_used@,
                n == u.len(),
                0 <= i <= n,
                to_decay@ == stale_ids(u.take(i as int), current_tick),
            decreases n - i,
        {
            proof {
                assert(u.take(i + 1).drop_last() =~= u.take(i as int));
            }
            let e = self.last_used.entry_at(i);
            if current_tick.saturating_sub(e.1) > 1000 {
                to_decay.push(e.0);
            }
            i = i + 1;
        }
        proof {
            assert(u.take(n as int) =~= u);
        }
        let ghost st0 = (self.known@, self.proficiency@, self.discovery_progress@);
        let ghost ids = to_decay@;
        let mut j: usize = 0;
        while j < to_decay.len()
            invariant
                ids == to_decay@,
                0 <= j <= ids.len(),
                ids_sorted(self.known@),
                self.last_used@ == u,
                (self.known@, self.proficiency@, self.discovery_progress@) == decay_all(st0, ids.take(j as int), decay_rate),
            decreases ids.len() - j,
        {
            proof {
                assert(ids.take(j + 1).drop_last() =~= ids.take(j as int));
            }
            let id = to_decay[j];
            match self.proficiency.get(id) {
                Some(p) => {
                    let v = *p;
                    let nv: u8 = if v >= decay_rate { v - decay_rate } else { 0 };
                    if nv == 0 {
                        self.known.remove(id);
                        self.proficiency.remove(id);
                        self.discovery_progress.remove(id);
                    } else {
                        self.proficiency.insert(id, nv);
                    }
                },
                None => {},
            }
            j = j + 1;
        }
        proof {
            assert(ids.take(ids.len() as int) =~= ids);
        }
    }

    /// The known items, in increasing id order.
    pub fn known_knowledge(&self) -> (r: &[KnowledgeId])
        ensures
            r@ == self.known_ids(),
    {
        self.known.as_slice()
    }

    /// Number of known items.
    pub fn knowledge_count(&self) -> (n: usize)
        ensures
            n == self.known_ids().len(),
    {
        self.known.len()
    }

    /// Mean proficiency, rounded down (the sum is taken in `u16`), 0 with no
    /// proficiencies.
    pub fn average_proficiency(&self) -> (r: u8)
        requires
            proficiency_sum(self.proficiency_table()) <= u16::MAX,
        ensures
            r == (if self.proficiency_table().len() == 0 {
                0u8
            } else {
                (proficiency_sum(self.proficiency_table()) / self.proficiency_table().len()) as u8
            }),
    {
        let n = self.proficiency.len();
        if n == 0 {
            return 0;
        }
        let ghost s = self.proficiency@;
        let mut total: u16 = 0;
        let mut i: usize = 0;
        while i < n
            invariant
                s == self.proficiency@,
                n == s.len(),
                0 <= i <= n,
                proficiency_sum(s) <= u16::MAX,
                total == proficiency_sum(s.take(i as int)),
            decreases n - i,
        {
            proof {
                assert(s.take(i + 1).drop_last() =~= s.take(i as int));
                lemma_proficiency_sum_prefix(s, i + 1);
            }
            total = total + self.proficiency.entry_at(i).1 as u16;
            i = i + 1;
        }
        proof {
            assert(s.take(n as int) =~= s);
        }
        (total as usize / n) as u8
    }

    /// For each stage that some discovery is at, in stage order, how many are there.
    pub fn stage_counts(&self) -> (c: StageCounts)
        ensures
            c@ == stage_count_entries(self.progress_table()),
    {
        let mut entries: Vec<(DiscoveryStage, usize)> = Vec::new();
        let ghost s = self.discovery_progress@;
        let c0 = self.count_at(DiscoveryStage::AccidentalObservation);
        if c0 > 0 {
            entries.push((DiscoveryStage::AccidentalObservation, c0));
        }
        let ghost e0 = entries@;
        let c1 = self.count_at(DiscoveryStage::AffordanceCandidate);
        if c1 > 0 {
            entries.push((DiscoveryStage::AffordanceCandidate, c1));
        }
        let ghost e1 = entries@;
        let c2 = self.count_at(DiscoveryStage::ProcessSchema);
        if c2 > 0 {
            entries.push((DiscoveryStage::ProcessSchema, c2));
        }
        let ghost e2 = entries@;
        let c3 = self.count_at(DiscoveryStage::Technique);
        if c3 > 0 {
            entries.push((DiscoveryStage::Technique, c3));
        }
        let ghost e3 = entries@;
        let c4 = self.count_at(DiscoveryStage::CodifiedKnowledge);
        if c4 > 0 {
            entries.push((DiscoveryStage::CodifiedKnowledge, c4));
        }
        let ghost e4 = entries@;
        let c5 = self.count_at(DiscoveryStage::InstitutionalizedPractice);
        if c5 > 0 {
            entries.push((DiscoveryStage::InstitutionalizedPractice, c5));
        }
        proof {
            assert(e0 =~= stage_entry(s, DiscoveryStage::AccidentalObservation));
            assert(e1 =~= e0 + stage_entry(s, DiscoveryStage::AffordanceCandidate));
            assert(e2 =~= e1 + stage_entry(s, DiscoveryStage::ProcessSchema));
            assert(e3 =~= e2 + stage_entry(s, DiscoveryStage::Technique));
            assert(e4 =~= e3 + stage_entry(s, DiscoveryStage::CodifiedKnowledge));
            assert(entries@ =~= e4 + stage_entry(s, DiscoveryStage::InstitutionalizedPractice));
        }
        StageCounts { entries }
    }

    fn count_at(&self, stage: DiscoveryStage) -> (n: usize)
        ensures
            n == count_stage(self.progress_table(), stage),
    {
        let ghost s = self.discovery_progress@;
        let len = self.discovery_progress.len();
        let mut n: usize = 0;
        let mut i: usize = 0;
        while i < len
            invariant
                s == self.discovery_progress@,
                len == s.len(),
                0 <= i <= len,
                n == count_stage(s.take(i as int), stage),
                n <= i,
            decreases len - i,
        {
            proof {
                assert(s.take(i + 1).drop_last() =~= s.take(i as int));
            }
            if self.discovery_progress.entry_at(i).1.stage == stage {
                n = n + 1;
            }
            i = i + 1;
        }
        proof {
            assert(s.take(len as int) =~= s);
        }
        n
    }
}

impl Default for AgentKnowledge {
    fn default() -> (a: Self)
        ensures
            a.wf(),
            a.known_ids() == Seq::<KnowledgeId>::empty(),
            a.proficiency_table() == Seq::<(KnowledgeId, u8)>::empty(),
            a.progress_table() == Seq::<(KnowledgeId, DiscoveryProgress)>::empty(),
            a.used_table() == Seq::<(KnowledgeId, u64)>::empty(),
    {
        AgentKnowledge::new()
    }
}

/// The item `id` is in the catalog and every one of its prerequisites is known.
pub open spec fn spec_prerequisites_met(cat: Seq<Knowledge>, id: KnowledgeId, known: Seq<KnowledgeId>) -> bool {
    let i = find_knowledge(cat, id);
    i >= 0 && forall|j: int| 0 <= j < cat[i].prerequisites@.len() ==> known.contains(#[trigger] cat[i].prerequisites@[j])
}

/// The catalog items that are not known and whose prerequisites are, in catalog order.
pub open spec fn discoverable(cat: Seq<Knowledge>, items: Seq<Knowledge>, known: Seq<KnowledgeId>) -> Seq<KnowledgeId>
    decreases items.len(),
{
    if items.len() == 0 {
        Seq::empty()
    } else {
        let k = items.last();
        if !known.contains(k.id) && spec_prerequisites_met(cat, k.id, known) {
            discoverable(cat, items.drop_last(), known).push(k.id)
        } else {
            discoverable(cat, items.drop_last(), known)
        }
    }
}

impl KnowledgeRegistry {
    /// Whether `knowledge_id` is in the catalog and the agent knows all its prerequisites.
    pub fn prerequisites_met(&self, knowledge_id: KnowledgeId, agent_knowledge: &AgentKnowledge) -> (b: bool)
        requires
            agent_knowledge.wf(),
        ensures
            b == spec_prerequisites_met(self@, knowledge_id, agent_knowledge.known_ids()),
    {
        match self.get(knowledge_id) {
            Some(knowledge) => {
                let n = knowledge.prerequisites.len();
                let mut i: usize = 0;
                while i < n
                    invariant
                        n == knowledge.prerequisites@.len(),
                        find_knowledge(self@, knowledge_id) >= 0,
                        *knowledge == self@[find_knowledge(self@, knowledge_id)],
                        agent_knowledge.wf(),
                        0 <= i <= n,
                        forall|j: int| 0 <= j < i ==> agent_knowledge.known_ids().contains(
                            #[trigger] knowledge.prerequisites@[j],
                        ),
                    decreases n - i,
                {
                    if !agent_knowledge.knows(knowledge.prerequisites[i]) {
                        proof {
                            assert(!agent_knowledge.known_ids().contains(knowledge.prerequisites@[i as int]));
                        }
                        return false;
                    }
                    i = i + 1;
                }
                true
            },
            None => false,
        }
    }

    /// The items the agent could discover next: not known, prerequisites
    /// known, in catalog (id) order.
    pub fn discoverable_for(&self, agent_knowledge: &AgentKnowledge) -> (r: Vec<KnowledgeId>)
        requires
            agent_knowledge.wf(),
        ensures
            r@ == discoverable(self@, self@, agent_knowledge.known_ids()),
    {
        let ghost cat = self@;
        let mut r: Vec<KnowledgeId> = Vec::new();
        let mut i: usize = 0;
        while i < self.knowledge_items.len()
            invariant
                cat == self@,
                agent_knowledge.wf(),
                0 <= i <= cat.len(),
                r@ == discoverable(cat, cat.take(i as int), agent_knowledge.known_ids()),
            decreases cat.len() - i,
        {
            proof {
                assert(cat.take(i + 1).drop_last() =~= cat.take(i as int));
            }
            let id = self.knowledge_items[i].id;
            if !agent_knowledge.knows(id) && self.prerequisites_met(id, agent_knowledge) {
                r.push(id);
            }
            i = i + 1;
        }
        proof {
            assert(cat.take(cat.len() as int) =~= cat);
        }
        r
    }
}

} // verus!
