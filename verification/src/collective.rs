use vstd::prelude::*;

use crate::agents::{AgentId, Individual, max_int, min_int, sat_sub_u8};
use crate::sim_core::{DeterministicRng, bounded_state, bounded_value};

verus! {

/// Identifier of a collective actor.
#[derive(Debug, Clone, Copy, PartialEq, Eq, Hash, Structural)]
pub struct CollectiveId(pub u64);

/// Life-cycle states of a collective.
#[derive(Debug, Clone, Copy, PartialEq, Eq, Structural)]
pub enum CollectiveLifecycleState {
    EphemeralCoordination,
    ProtoGroup,
    UnstableCollective,
    StabilizedCollective,
    FragmentingCollective,
    Dissolved,
}

/// Kinds of collective actor.
#[derive(Debug, Clone, Copy, PartialEq, Eq, Structural)]
pub enum CollectiveType {
    CoordinationCluster,
    StableGroup,
    CollectiveActor,
    HouseholdActor,
    OrganizationActor,
    GovernanceActor,
    PolityActor,
}

/// How member inputs are combined into a collective decision.
#[derive(Debug, Clone, Copy, PartialEq, Eq, Structural)]
pub enum DecisionProcedure {
    MajorityVote,
    WeightedCouncil,
    Consensus,
    CommandHierarchy,
    PatriarchalDominance,
    OligarchicDominance,
}

/// Roles within a collective.
#[derive(Debug, Clone, Copy, PartialEq, Eq, Structural)]
pub enum Role {
    Member,
    Specialist,
    Officer,
    Leader,
    Elder,
}

/// A member's standing in a collective.
#[derive(Debug, Clone, Copy, PartialEq, Eq, Structural)]
pub struct Membership {
    pub agent_id: AgentId,
    pub joined_tick: u64,
    pub role: Role,
    pub influence_weight: u8,
    pub compliance_propensity: u8,
    pub dissent_level: u8,
}

/// Kinds of pooled resource.
#[derive(Debug, Clone, Copy, PartialEq, Eq, Hash, Structural)]
pub enum ResourceType {
    Food,
    Material,
    Knowledge,
    Labor,
    Influence,
}

pub type MemberEntry = (AgentId, Membership);

/// Index of the first entry with key `k`, or -1.
pub open spec fn find_member(s: Seq<MemberEntry>, k: AgentId) -> int
    decreases s.len(),
{
    if s.len() == 0 {
        -1
    } else {
        let r = find_member(s.drop_last(), k);
        if r >= 0 {
            r
        } else if s.last().0 == k {
            s.len() - 1
        } else {
            -1
        }
    }
}

pub proof fn lemma_find_member(s: Seq<MemberEntry>, k: AgentId)
    ensures
        -1 <= find_member(s, k) < s.len(),
        find_member(s, k) >= 0 ==> s[find_member(s, k)].0 == k,
        find_member(s, k) >= 0 ==> forall|j: int| 0 <= j < find_member(s, k) ==> s[j].0 != k,
        find_member(s, k) < 0 ==> forall|j: int| 0 <= j < s.len() ==> s[j].0 != k,
    decreases s.len(),
{
    if s.len() > 0 {
        let t = s.drop_last();
        lemma_find_member(t, k);
        assert(forall|j: int| 0 <= j < t.len() ==> t[j] == s[j]);
    }
}

pub open spec fn lookup_member(s: Seq<MemberEntry>, k: AgentId) -> Option<Membership> {
    let i = find_member(s, k);
    if i >= 0 {
        Some(s[i].1)
    } else {
        None
    }
}

/// The table after inserting `v` under `k`: an existing entry is replaced in
/// place, otherwise the entry is appended.
pub open spec fn insert_member(s: Seq<MemberEntry>, k: AgentId, v: Membership) -> Seq<MemberEntry> {
    let i = find_member(s, k);
    if i >= 0 {
        s.update(i, (k, v))
    } else {
        s.push((k, v))
    }
}

/// The table after removing the entry under `k`, if any; the others keep their order.
pub open spec fn remove_member_entry(s: Seq<MemberEntry>, k: AgentId) -> Seq<MemberEntry> {
    let i = find_member(s, k);
    if i >= 0 {
        s.remove(i)
    } else {
        s
    }
}

/// Keys are pairwise distinct.
pub open spec fn members_wf(s: Seq<MemberEntry>) -> bool {
    forall|i: int, j: int| 0 <= i < j < s.len() ==> (#[trigger] s[i]).0 != (#[trigger] s[j]).0
}

/// A map from agents to their memberships, kept in insertion order.
#[derive(Debug, Clone)]
pub struct MemberTable {
    entries: Vec<MemberEntry>,
}

impl View for MemberTable {
    type V = Seq<MemberEntry>;

    closed spec fn view(&self) -> Seq<MemberEntry> {
        self.entries@
    }
}

impl MemberTable {
    pub fn new() -> (t: Self)
        ensures
            t@ == Seq::<MemberEntry>::empty(),
    {
        MemberTable { entries: Vec::new() }
    }

    pub fn len(&self) -> (n: usize)
        ensures
            n == self@.len(),
    {
        self.entries.len()
    }

    pub fn is_empty(&self) -> (b: bool)
        ensures
            b == (self@.len() == 0),
    {
        self.entries.len() == 0
    }

    fn index_of(&self, k: &AgentId) -> (r: Option<usize>)
        ensures
            match r {
                Some(i) => i < self@.len() && find_member(self@, *k) == i as int,
                None => find_member(self@, *k) == -1,
            },
    {
        proof { lemma_find_member(self@, *k); }
        let mut i: usize = 0;
        while i < self.entries.len()
            invariant
                0 <= i <= self@.len(),
                forall|j: int| 0 <= j < i ==> self@[j].0 != *k,
            decreases self@.len() - i,
        {
            if self.entries[i].0.0 == k.0 {
                proof { lemma_find_member(self@, *k); }
                return Some(i);
            }
            i = i + 1;
        }
        None
    }

    pub fn contains_key(&self, k: &AgentId) -> (b: bool)
        ensures
            b == (lookup_member(self@, *k) is Some),
    {
        self.index_of(k).is_some()
    }

    pub fn get(&self, k: &AgentId) -> (r: Option<&Membership>)
        ensures
            match r {
                Some(m) => lookup_member(self@, *k) == Some(*m),
                None => lookup_member(self@, *k) is None,
            },
    {
        match self.index_of(k) {
            Some(i) => Some(&self.entries[i].1),
            None => None,
        }
    }

    pub fn get_mut(&mut self, k: &AgentId) -> (r: Option<&mut Membership>)
        ensures
            r is None ==> lookup_member(old(self)@, *k) is None && final(self)@ == old(self)@,
            r matches Some(m) ==> lookup_member(old(self)@, *k) == Some(*m)
                && final(self)@ == insert_member(old(self)@, *k, *final(m)),
    {
        match self.index_of(k) {
            Some(i) => {
                proof { lemma_find_member(self@, *k); }
                Some(&mut self.entries[i].1)
            },
            None => None,
        }
    }

    /// Inserts `v` under `k`, returning the membership it replaced.
    pub fn insert(&mut self, k: AgentId, v: Membership) -> (r: Option<Membership>)
        ensures
            r == lookup_member(old(self)@, k),
            final(self)@ == insert_member(old(self)@, k, v),
    {
        match self.index_of(&k) {
            Some(i) => {
                let prev = self.entries[i].1;
                self.entries.set(i, (k, v));
                Some(prev)
            },
            None => {
                self.entries.push((k, v));
                None
            },
        }
    }

    /// Removes the entry under `k`, returning its membership.
    pub fn remove(&mut self, k: &AgentId) -> (r: Option<Membership>)
        ensures
            r == lookup_member(old(self)@, *k),
            final(self)@ == remove_member_entry(old(self)@, *k),
    {
        match self.index_of(k) {
            Some(i) => {
                let e = self.entries.remove(i);
                Some(e.1)
            },
            None => None,
        }
    }

    /// The entry at a position of the table.
    pub fn entry_at(&self, i: usize) -> (e: &MemberEntry)
        requires
            i < self@.len(),
        ensures
            *e == self@[i as int],
    {
        &self.entries[i]
    }
}

/// Inserting keeps keys distinct, and the inserted value is what a lookup finds.
pub proof fn lemma_insert_member(s: Seq<MemberEntry>, k: AgentId, v: Membership)
    requires
        members_wf(s),
    ensures
        members_wf(insert_member(s, k, v)),
        lookup_member(insert_member(s, k, v), k) == Some(v),
        forall|k2: AgentId| k2 != k ==> lookup_member(insert_member(s, k, v), k2) == lookup_member(s, k2),
{
    lemma_find_member(s, k);
    let u = insert_member(s, k, v);
    let i = find_member(s, k);
    assert forall|a: int, b: int| 0 <= a < b < u.len() implies (#[trigger] u[a]).0 != (#[trigger] u[b]).0 by {
        if i >= 0 {
            if a != i && b != i {
                assert(u[a] == s[a] && u[b] == s[b]);
            }
        } else if b < s.len() {
            assert(u[a] == s[a] && u[b] == s[b]);
        }
    }
    lemma_find_member(u, k);
    if i >= 0 {
        assert(u[i].0 == k);
    } else {
        assert(u[s.len() as int].0 == k);
    }
    assert forall|k2: AgentId| k2 != k implies lookup_member(u, k2) == lookup_member(s, k2) by {
        lemma_find_member(u, k2);
        lemma_find_member(s, k2);
        let j = find_member(s, k2);
        if j >= 0 {
            assert(u[j] == s[j]);
        }
        let ju = find_member(u, k2);
        if ju >= 0 {
            assert(ju < s.len());
            assert(u[ju] == s[ju]);
        }
    }
}

/// Removing keeps keys distinct and makes the key absent.
pub proof fn lemma_remove_member(s: Seq<MemberEntry>, k: AgentId)
    requires
        members_wf(s),
    ensures
        members_wf(remove_member_entry(s, k)),
        lookup_member(remove_member_entry(s, k), k) is None,
{
    lemma_find_member(s, k);
    let u = remove_member_entry(s, k);
    let i = find_member(s, k);
    if i >= 0 {
        assert forall|a: int, b: int| 0 <= a < b < u.len() implies (#[trigger] u[a]).0 != (#[trigger] u[b]).0 by {
            let a2 = if a < i { a } else { a + 1 };
            let b2 = if b < i { b } else { b + 1 };
            assert(u[a] == s[a2] && u[b] == s[b2]);
        }
        lemma_find_member(u, k);
        assert forall|j: int| 0 <= j < u.len() implies u[j].0 != k by {
            let j2 = if j < i { j } else { j + 1 };
            assert(u[j] == s[j2]);
        }
    } else {
        lemma_find_member(u, k);
    }
}

/// Resource amounts pooled by a collective, one entry per resource kind present.
#[derive(Debug, Clone)]
pub struct ResourcePool {
    entries: Vec<(ResourceType, u64)>,
}

pub open spec fn find_resource(s: Seq<(ResourceType, u64)>, k: ResourceType) -> int
    decreases s.len(),
{
    if s.len() == 0 {
        -1
    } else {
        let r = find_resource(s.drop_last(), k);
        if r >= 0 {
            r
        } else if s.last().0 == k {
            s.len() - 1
        } else {
            -1
        }
    }
}

pub proof fn lemma_find_resource(s: Seq<(ResourceType, u64)>, k: ResourceType)
    ensures
        -1 <= find_resource(s, k) < s.len(),
        find_resource(s, k) >= 0 ==> s[find_resource(s, k)].0 == k,
        find_resource(s, k) >= 0 ==> forall|j: int| 0 <= j < find_resource(s, k) ==> s[j].0 != k,
        find_resource(s, k) < 0 ==> forall|j: int| 0 <= j < s.len() ==> s[j].0 != k,
    decreases s.len(),
{
    if s.len() > 0 {
        let t = s.drop_last();
        lemma_find_resource(t, k);
        assert(forall|j: int| 0 <= j < t.len() ==> t[j] == s[j]);
    }
}

pub open spec fn lookup_resource(s: Seq<(ResourceType, u64)>, k: ResourceType) -> Option<u64> {
    let i = find_resource(s, k);
    if i >= 0 {
        Some(s[i].1)
    } else {
        None
    }
}

pub open spec fn insert_resource(s: Seq<(ResourceType, u64)>, k: ResourceType, v: u64) -> Seq<(ResourceType, u64)> {
    let i = find_resource(s, k);
    if i >= 0 {
        s.update(i, (k, v))
    } else {
        s.push((k, v))
    }
}

/// Sum of the pooled amounts.
pub open spec fn pool_total(s: Seq<(ResourceType, u64)>) -> nat
    decreases s.len(),
{
    if s.len() == 0 { 0 } else { pool_total(s.drop_last()) + s.last().1 as nat }
}

impl View for ResourcePool {
    type V = Seq<(ResourceType, u64)>;

    closed spec fn view(&self) -> Seq<(ResourceType, u64)> {
        self.entries@
    }
}

fn resource_eq(a: ResourceType, b: ResourceType) -> (r: bool)
    ensures
        r == (a == b),
{
    match (a, b) {
        (ResourceType::Food, ResourceType::Food) => true,
        (ResourceType::Material, ResourceType::Material) => true,
        (ResourceType::Knowledge, ResourceType::Knowledge) => true,
        (ResourceType::Labor, ResourceType::Labor) => true,
        (ResourceType::Influence, ResourceType::Influence) => true,
        _ => false,
    }
}

impl ResourcePool {
    pub fn new() -> (p: Self)
        ensures
            p@ == Seq::<(ResourceType, u64)>::empty(),
    {
        ResourcePool { entries: Vec::new() }
    }

    pub fn len(&self) -> (n: usize)
        ensures
            n == self@.len(),
    {
        self.entries.len()
    }

    pub fn is_empty(&self) -> (b: bool)
        ensures
            b == (self@.len() == 0),
    {
        self.entries.len() == 0
    }

    fn index_of(&self, k: ResourceType) -> (r: Option<usize>)
        ensures
            match r {
                Some(i) => i < self@.len() && find_resource(self@, k) == i as int,
                None => find_resource(self@, k) == -1,
            },
    {
        proof { lemma_find_resource(self@, k); }
        let mut i: usize = 0;
        while i < self.entries.len()
            invariant
                0 <= i <= self@.len(),
                forall|j: int| 0 <= j < i ==> self@[j].0 != k,
            decreases self@.len() - i,
        {
            if resource_eq(self.entries[i].0, k) {
                proof { lemma_find_resource(self@, k); }
                return Some(i);
            }
            i = i + 1;
        }
        None
    }

    pub fn get(&self, k: &ResourceType) -> (r: Option<&u64>)
        ensures
            match r {
                Some(v) => lookup_resource(self@, *k) == Some(*v),
                None => lookup_resource(self@, *k) is None,
            },
    {
        match self.index_of(*k) {
            Some(i) => Some(&self.entries[i].1),
            None => None,
        }
    }

    /// Sets the amount of a resource, returning the amount it replaced.
    pub fn insert(&mut self, k: ResourceType, v: u64) -> (r: Option<u64>)
        ensures
            r == lookup_resource(old(self)@, k),
            final(self)@ == insert_resource(old(self)@, k, v),
    {
        match self.index_of(k) {
            Some(i) => {
                let prev = self.entries[i].1;
                self.entries.set(i, (k, v));
                Some(prev)
            },
            None => {
                self.entries.push((k, v));
                None
            },
        }
    }

    /// The entry at a position of the pool.
    pub fn entry_at(&self, i: usize) -> (e: (ResourceType, u64))
        requires
            i < self@.len(),
        ensures
            e == self@[i as int],
    {
        self.entries[i]
    }

    /// Sum of all pooled amounts.
    pub fn total(&self) -> (t: u64)
        requires
            pool_total(self@) <= u64::MAX,
        ensures
            t == pool_total(self@),
    {
        let mut t: u64 = 0;
        let mut i: usize = 0;
        while i < self.entries.len()
            invariant
                0 <= i <= self@.len(),
                t == pool_total(self@.take(i as int)),
                pool_total(self@) <= u64::MAX,
            decreases self@.len() - i,
        {
            proof {
                assert(self@.take(i + 1).drop_last() =~= self@.take(i as int));
                lemma_pool_total_prefix(self@, i as int + 1);
            }
            t = t + self.entries[i].1;
            i = i + 1;
        }
        proof {
            assert(self@.take(self@.len() as int) =~= self@);
        }
        t
    }
}

/// Totals of prefixes never exceed the total.
pub proof fn lemma_pool_total_prefix(s: Seq<(ResourceType, u64)>, n: int)
    requires
        0 <= n <= s.len(),
    ensures
        pool_total(s.take(n)) <= pool_total(s),
    decreases s.len(),
{
    if n < s.len() {
        assert(s.drop_last().take(n) =~= s.take(n));
        lemma_pool_total_prefix(s.drop_last(), n);
    } else {
        assert(s.take(n) =~= s);
    }
}


/// A sub-coalition inside a collective.
#[derive(Debug, Clone)]
pub struct Faction {
    pub faction_id: u64,
    pub name: String,
    /// Member agents, each listed once.
    pub members: Vec<AgentId>,
    pub internal_cohesion: u8,
    pub distance_from_center: u8,
    /// Grievance against other factions, by faction id.
    pub grievances: Vec<(u64, u8)>,
}

/// `s` without any occurrence of `a`, order kept.
pub open spec fn without_agent(s: Seq<AgentId>, a: AgentId) -> Seq<AgentId>
    decreases s.len(),
{
    if s.len() == 0 {
        Seq::empty()
    } else if s.last() == a {
        without_agent(s.drop_last(), a)
    } else {
        without_agent(s.drop_last(), a).push(s.last())
    }
}

/// A collective actor with its internal structure.
#[derive(Debug, Clone)]
pub struct CollectiveActor {
    pub id: CollectiveId,
    pub collective_type: CollectiveType,
    pub lifecycle_state: CollectiveLifecycleState,
    pub formed_tick: u64,
    pub last_transition_tick: u64,
    pub members: MemberTable,
    pub constitution: DecisionProcedure,
    pub pooled_resources: ResourcePool,
    pub legitimacy: u8,
    pub institutionalization: u8,
    pub resource_centralization: u8,
    /// Factions, by faction id.
    pub factions: Vec<(u64, Faction)>,
    pub factionalism: u8,
    pub internal_inequality: u8,
    pub external_recognition: u8,
    pub location: Option<(i32, i32)>,
    pub territory: Vec<(i32, i32)>,
    pub successful_decisions: u64,
    pub partial_compliance_decisions: u64,
    pub failed_decisions: u64,
}

/// Criteria for promoting a group to a collective actor.
#[derive(Debug, Clone, Copy, PartialEq, Eq, Structural)]
pub struct PromotionCriteria {
    pub boundary_clarity: u8,
    pub membership_rules: u8,
    pub shared_resources: u8,
    pub decision_procedure: u8,
    pub external_capacity: u8,
}

impl Default for PromotionCriteria {
    fn default() -> (c: Self)
        ensures
            c == (PromotionCriteria {
                boundary_clarity: 0,
                membership_rules: 0,
                shared_resources: 0,
                decision_procedure: 0,
                external_capacity: 0,
            }),
    {
        PromotionCriteria {
            boundary_clarity: 0,
            membership_rules: 0,
            shared_resources: 0,
            decision_procedure: 0,
            external_capacity: 0,
        }
    }
}

pub open spec fn spec_meets_threshold(c: PromotionCriteria) -> bool {
    &&& c.boundary_clarity >= 60
    &&& c.membership_rules >= 60
    &&& c.shared_resources >= 60
    &&& c.decision_procedure >= 60
    &&& c.external_capacity >= 60
}

impl PromotionCriteria {
    /// Every criterion is at least 60.
    pub fn meets_threshold(&self) -> (b: bool)
        ensures
            b == spec_meets_threshold(*self),
    {
        self.boundary_clarity >= 60 && self.membership_rules >= 60 && self.shared_resources >= 60
            && self.decision_procedure >= 60 && self.external_capacity >= 60
    }

    /// Overall strength: the mean of the five criteria, rounded down.
    pub fn overall_score(&self) -> (r: u8)
        ensures
            r == (self.boundary_clarity + self.membership_rules + self.shared_resources
                + self.decision_procedure + self.external_capacity) / 5,
            (self.boundary_clarity <= 100 && self.membership_rules <= 100 && self.shared_resources <= 100
                && self.decision_procedure <= 100 && self.external_capacity <= 100) ==> r <= 100,
    {
        let sum: u16 = self.boundary_clarity as u16 + self.membership_rules as u16
            + self.shared_resources as u16 + self.decision_procedure as u16
            + self.external_capacity as u16;
        (sum / 5) as u8
    }
}

/// Criteria for merging two collectives.
#[derive(Debug, Clone, Copy, PartialEq, Eq, Structural)]
pub struct MergeCriteria {
    pub compatible_institutions: u8,
    pub coordination_benefit: u8,
    pub manageable_factional_distance: u8,
    pub asset_integration_possible: u8,
}

impl Default for MergeCriteria {
    fn default() -> (c: Self)
        ensures
            c == (MergeCriteria {
                compatible_institutions: 0,
                coordination_benefit: 0,
                manageable_factional_distance: 0,
                asset_integration_possible: 0,
            }),
    {
        MergeCriteria {
            compatible_institutions: 0,
            coordination_benefit: 0,
            manageable_factional_distance: 0,
            asset_integration_possible: 0,
        }
    }
}

/// Criteria for splitting a collective.
#[derive(Debug, Clone, Copy, PartialEq, Eq, Structural)]
pub struct SplitCriteria {
    pub identifiable_subgroups: u8,
    pub independent_cohesion: u8,
    pub severe_disagreement: u8,
    pub independent_action_path: u8,
}

impl Default for SplitCriteria {
    fn default() -> (c: Self)
        ensures
            c == (SplitCriteria {
                identifiable_subgroups: 0,
                independent_cohesion: 0,
                severe_disagreement: 0,
                independent_action_path: 0,
            }),
    {
        SplitCriteria {
            identifiable_subgroups: 0,
            independent_cohesion: 0,
            severe_disagreement: 0,
            independent_action_path: 0,
        }
    }
}

pub open spec fn sum_weights(s: Seq<MemberEntry>) -> nat
    decreases s.len(),
{
    if s.len() == 0 { 0 } else { sum_weights(s.drop_last()) + s.last().1.influence_weight as nat }
}

pub open spec fn sum_sq_dev(s: Seq<MemberEntry>, mean: int) -> nat
    decreases s.len(),
{
    if s.len() == 0 {
        0
    } else {
        let d = s.last().1.influence_weight - mean;
        sum_sq_dev(s.drop_last(), mean) + (d * d) as nat
    }
}

/// The largest `r >= start` reachable by steps of one while `(r + 1)^2 <= x`.
pub open spec fn isqrt_from(x: int, r: int) -> int
    decreases x - r,
{
    if r >= x {
        r
    } else if (r + 1) * (r + 1) <= x {
        isqrt_from(x, r + 1)
    } else {
        r
    }
}

/// Integer square root.
pub open spec fn isqrt(x: int) -> int {
    isqrt_from(x, 0)
}

pub proof fn lemma_isqrt_from(x: int, r: int)
    requires
        0 <= r,
        r * r <= x,
    ensures
        isqrt_from(x, r) * isqrt_from(x, r) <= x < (isqrt_from(x, r) + 1) * (isqrt_from(x, r) + 1),
    decreases x - r,
{
    if r >= x {
        assert(r * r <= x);
        assert(x < (r + 1) * (r + 1)) by (nonlinear_arith)
            requires r >= x, r >= 0;
    } else if (r + 1) * (r + 1) <= x {
        lemma_isqrt_from(x, r + 1);
    }
}

/// `isqrt(x)` is the integer square root: `r^2 <= x < (r + 1)^2`.
pub proof fn lemma_isqrt(x: int)
    requires
        0 <= x,
    ensures
        isqrt(x) * isqrt(x) <= x < (isqrt(x) + 1) * (isqrt(x) + 1),
        isqrt(x) >= 0,
{
    lemma_isqrt_from(x, 0);
    lemma_isqrt_from_ge(x, 0);
}

pub proof fn lemma_isqrt_from_ge(x: int, r: int)
    ensures
        isqrt_from(x, r) >= r,
    decreases x - r,
{
    if r < x && (r + 1) * (r + 1) <= x {
        lemma_isqrt_from_ge(x, r + 1);
    }
}

/// Inequality of influence: twice the standard deviation of the members'
/// weights, rounded down and capped at 100, with the mean and the variance
/// each truncated to an integer first; 0 for fewer than two members.
pub open spec fn spec_inequality(s: Seq<MemberEntry>) -> u8 {
    if s.len() < 2 {
        0
    } else {
        let mean = sum_weights(s) as int / s.len() as int;
        let variance = sum_sq_dev(s, mean) as int / s.len() as int;
        min_int(isqrt(4 * variance), 100) as u8
    }
}

pub proof fn lemma_sum_weights_prefix(s: Seq<MemberEntry>, n: int)
    requires
        0 <= n <= s.len(),
    ensures
        sum_weights(s.take(n)) <= sum_weights(s),
    decreases s.len(),
{
    if n < s.len() {
        assert(s.drop_last().take(n) =~= s.take(n));
        lemma_sum_weights_prefix(s.drop_last(), n);
    } else {
        assert(s.take(n) =~= s);
    }
}

pub proof fn lemma_sum_sq_dev_prefix(s: Seq<MemberEntry>, mean: int, n: int)
    requires
        0 <= n <= s.len(),
    ensures
        sum_sq_dev(s.take(n), mean) <= sum_sq_dev(s, mean),
    decreases s.len(),
{
    if n < s.len() {
        assert(s.drop_last().take(n) =~= s.take(n));
        lemma_sum_sq_dev_prefix(s.drop_last(), mean, n);
    } else {
        assert(s.take(n) =~= s);
    }
}

/// Integer square root by counting up.
fn integer_sqrt(x: u32) -> (r: u32)
    requires
        x <= 1_040_400,
    ensures
        r == isqrt(x as int),
{
    let mut r: u32 = 0;
    loop
        invariant
            r <= 1020,
            r * r <= x,
            x <= 1_040_400,
            isqrt_from(x as int, r as int) == isqrt(x as int),
        decreases 1020 - r,
    {
        if r >= x {
            return r;
        }
        let n: u32 = r + 1;
        assert(n * n <= 1_042_441) by (nonlinear_arith)
            requires
                n <= 1021,
        ;
        if n * n > x {
            return r;
        }
        assert(n <= 1020) by (nonlinear_arith)
            requires
                n * n <= x,
                x <= 1_040_400,
        ;
        r = n;
    }
}

/// Sum of the weights, bounded by 255 per member.
proof fn lemma_sum_weights_bound(s: Seq<MemberEntry>)
    ensures
        sum_weights(s) <= 255 * s.len(),
    decreases s.len(),
{
    if s.len() > 0 {
        lemma_sum_weights_bound(s.drop_last());
    }
}

/// The membership an agent gets on joining.
pub open spec fn new_membership(agent_id: AgentId, tick: u64) -> Membership {
    Membership {
        agent_id,
        joined_tick: tick,
        role: Role::Member,
        influence_weight: 10,
        compliance_propensity: 50,
        dissent_level: 0,
    }
}

/// `v` without the occurrences of `a`, order kept.
fn without_agent_vec(v: &Vec<AgentId>, a: AgentId) -> (r: Vec<AgentId>)
    ensures
        r@ == without_agent(v@, a),
{
    let mut r: Vec<AgentId> = Vec::new();
    let mut i: usize = 0;
    while i < v.len()
        invariant
            0 <= i <= v@.len(),
            r@ == without_agent(v@.take(i as int), a),
        decreases v@.len() - i,
    {
        proof {
            assert(v@.take(i + 1).drop_last() =~= v@.take(i as int));
        }
        if v[i].0 != a.0 {
            r.push(v[i]);
        }
        i = i + 1;
    }
    proof {
        assert(v@.take(v@.len() as int) =~= v@);
    }
    r
}

/// The factions after taking `a` out of each one's members.
pub open spec fn factions_without(old_f: Seq<(u64, Faction)>, new_f: Seq<(u64, Faction)>, a: AgentId) -> bool {
    &&& new_f.len() == old_f.len()
    &&& forall|i: int| 0 <= i < old_f.len() ==> {
        &&& (#[trigger] new_f[i]).0 == old_f[i].0
        &&& new_f[i].1.members@ == without_agent(old_f[i].1.members@, a)
        &&& new_f[i].1 == (Faction { members: new_f[i].1.members, ..old_f[i].1 })
    }
}

/// `c` is a new proto-group: no members, resources or factions,
/// legitimacy 50 and every other measure 0.
pub open spec fn is_fresh_actor(
    c: CollectiveActor,
    id: CollectiveId,
    collective_type: CollectiveType,
    formed_tick: u64,
    constitution: DecisionProcedure,
) -> bool {
    &&& fresh_fields(c, id, collective_type, formed_tick, constitution)
    &&& c.members@ == Seq::<MemberEntry>::empty()
    &&& c.pooled_resources@ == Seq::<(ResourceType, u64)>::empty()
    &&& c.legitimacy == 50
}

/// The fields of a new collective other than its members, its resources and
/// its legitimacy.
pub open spec fn fresh_fields(
    c: CollectiveActor,
    id: CollectiveId,
    collective_type: CollectiveType,
    formed_tick: u64,
    constitution: DecisionProcedure,
) -> bool {
    &&& c.id == id
    &&& c.collective_type == collective_type
    &&& c.lifecycle_state == CollectiveLifecycleState::ProtoGroup
    &&& c.formed_tick == formed_tick
    &&& c.last_transition_tick == formed_tick
    &&& c.constitution == constitution
    &&& c.institutionalization == 0
    &&& c.resource_centralization == 0
    &&& c.factions@ == Seq::<(u64, Faction)>::empty()
    &&& c.factionalism == 0
    &&& c.internal_inequality == 0
    &&& c.external_recognition == 0
    &&& c.location is None
    &&& c.territory@ == Seq::<(i32, i32)>::empty()
    &&& c.successful_decisions == 0
    &&& c.partial_compliance_decisions == 0
    &&& c.failed_decisions == 0
}

impl CollectiveActor {
    /// A proto-group with no members, legitimacy 50 and every other measure 0.
    pub fn new(
        id: CollectiveId,
        collective_type: CollectiveType,
        formed_tick: u64,
        constitution: DecisionProcedure,
    ) -> (c: Self)
        ensures
            is_fresh_actor(c, id, collective_type, formed_tick, constitution),
    {
        CollectiveActor {
            id,
            collective_type,
            lifecycle_state: CollectiveLifecycleState::ProtoGroup,
            formed_tick,
            last_transition_tick: formed_tick,
            members: MemberTable::new(),
            constitution,
            pooled_resources: ResourcePool::new(),
            legitimacy: 50,
            institutionalization: 0,
            resource_centralization: 0,
            factions: Vec::new(),
            factionalism: 0,
            internal_inequality: 0,
            external_recognition: 0,
            location: None,
            territory: Vec::new(),
            successful_decisions: 0,
            partial_compliance_decisions: 0,
            failed_decisions: 0,
        }
    }

    /// Recomputes `internal_inequality` from the members' influence weights.
    fn update_internal_inequality(&mut self)
        ensures
            *final(self) == (CollectiveActor { internal_inequality: spec_inequality(old(self).members@), ..*old(self) }),
    {
        let n = self.members.len();
        if n < 2 {
            self.internal_inequality = 0;
            return;
        }
        let ghost s = self.members@;
        let mut sum: u128 = 0;
        let mut i: usize = 0;
        while i < n
            invariant
                n == s.len(),
                s == self.members@,
                0 <= i <= n,
                sum == sum_weights(s.take(i as int)),
                sum <= 255 * i,
            decreases n - i,
        {
            proof {
                assert(s.take(i + 1).drop_last() =~= s.take(i as int));
            }
            sum = sum + self.members.entry_at(i).1.influence_weight as u128;
            i = i + 1;
        }
        proof {
            assert(s.take(n as int) =~= s);
        }
        let mean: u128 = sum / (n as u128);
        assert(mean <= 255) by (nonlinear_arith)
            requires
                mean == sum / (n as u128),
                sum <= 255 * n,
                n >= 2,
        ;
        let mut sq: u128 = 0;
        let mut j: usize = 0;
        while j < n
            invariant
                n == s.len(),
                s == self.members@,
                0 <= j <= n,
                mean <= 255,
                sq == sum_sq_dev(s.take(j as int), mean as int),
                sq <= 65025 * j,
            decreases n - j,
        {
            proof {
                assert(s.take(j + 1).drop_last() =~= s.take(j as int));
            }
            let w = self.members.entry_at(j).1.influence_weight as u128;
            let d: u128 = if w >= mean { w - mean } else { mean - w };
            assert(d * d <= 65025 && d * d == (w - mean) * (w - mean)) by (nonlinear_arith)
                requires
                    d <= 255,
                    d == w - mean || d == mean - w,
            ;
            sq = sq + d * d;
            j = j + 1;
        }
        proof {
            assert(s.take(n as int) =~= s);
        }
        let variance: u128 = sq / (n as u128);
        assert(variance <= 65025) by (nonlinear_arith)
            requires
                variance == sq / (n as u128),
                sq <= 65025 * n,
                n >= 2,
        ;
        let r = integer_sqrt((4 * variance) as u32);
        self.internal_inequality = if r > 100 { 100 } else { r as u8 };
    }

    /// Adds `agent_id` as a plain member (weight 10, compliance 50, no
    /// dissent), replacing any earlier membership, and recomputes inequality.
    pub fn add_member(&mut self, agent_id: AgentId, tick: u64)
        ensures
            final(self).members@ == insert_member(old(self).members@, agent_id, new_membership(agent_id, tick)),
            *final(self) == (CollectiveActor {
                members: final(self).members,
                internal_inequality: spec_inequality(final(self).members@),
                ..*old(self)
            }),
    {
        let membership = Membership {
            agent_id,
            joined_tick: tick,
            role: Role::Member,
            influence_weight: 10,
            compliance_propensity: 50,
            dissent_level: 0,
        };
        self.members.insert(agent_id, membership);
        self.update_internal_inequality();
    }

    /// Removes `agent_id` from the members and from every faction, and
    /// recomputes inequality.
    pub fn remove_member(&mut self, agent_id: AgentId)
        ensures
            final(self).members@ == remove_member_entry(old(self).members@, agent_id),
            factions_without(old(self).factions@, final(self).factions@, agent_id),
            *final(self) == (CollectiveActor {
                members: final(self).members,
                factions: final(self).factions,
                internal_inequality: spec_inequality(final(self).members@),
                ..*old(self)
            }),
    {
        self.members.remove(&agent_id);
        let n = self.factions.len();
        let ghost f0 = self.factions@;
        let ghost before = *self;
        let mut i: usize = 0;
        while i < n
            invariant
                *self == (CollectiveActor { factions: self.factions, ..before }),
                n == f0.len(),
                self.factions@.len() == n,
                0 <= i <= n,
                forall|j: int| 0 <= j < i ==> {
                    &&& (#[trigger] self.factions@[j]).0 == f0[j].0
                    &&& self.factions@[j].1.members@ == without_agent(f0[j].1.members@, agent_id)
                    &&& self.factions@[j].1 == (Faction { members: self.factions@[j].1.members, ..f0[j].1 })
                },
                forall|j: int| i <= j < n ==> #[trigger] self.factions@[j] == f0[j],
            decreases n - i,
        {
            let (fid, mut f) = self.factions.remove(i);
            f.members = without_agent_vec(&f.members, agent_id);
            self.factions.insert(i, (fid, f));
            i = i + 1;
        }
        self.update_internal_inequality();
    }

    /// Whether `agent_id` has a membership.
    pub fn is_member(&self, agent_id: AgentId) -> (b: bool)
        ensures
            b == (lookup_member(self.members@, agent_id) is Some),
    {
        self.members.contains_key(&agent_id)
    }

    /// Number of member entries.
    pub fn member_count(&self) -> (n: usize)
        ensures
            n == self.members@.len(),
    {
        self.members.len()
    }
}

/// Boundary clarity: 50 below three members, otherwise 50 plus four points
/// per member (at most 40) plus ten per successful decision (at most 20).
pub open spec fn spec_boundary_clarity(c: CollectiveActor) -> u8 {
    let n = c.members@.len();
    if n < 3 {
        50
    } else {
        let size = 50 + min_int(4 * n as int, 40);
        let stability = min_int(10 * c.successful_decisions, 20);
        min_int(size + stability, 100) as u8
    }
}

/// Some member holds a role other than plain member.
pub open spec fn has_roles(s: Seq<MemberEntry>) -> bool {
    exists|i: int| 0 <= i < s.len() && (#[trigger] s[i]).1.role != Role::Member
}

/// Membership rules: 60 with role differentiation (40 without), plus half
/// the institutionalization, plus a size bonus, capped at 100.
pub open spec fn spec_membership_rules(c: CollectiveActor) -> u8 {
    let role_score: int = if has_roles(c.members@) { 60 } else { 40 };
    let size_bonus = min_int(4 * c.members@.len() as int, 40);
    min_int(role_score + c.institutionalization as int / 2 + size_bonus, 100) as u8
}

/// Shared resources: 20 with an empty pool, otherwise the mean of the
/// centralization and the pooled total capped at 100.
pub open spec fn spec_shared_resources(c: CollectiveActor) -> u8 {
    if c.pooled_resources@.len() == 0 {
        20
    } else {
        ((c.resource_centralization as int + min_int(pool_total(c.pooled_resources@) as int, 100)) / 2) as u8
    }
}

/// The constitution works once a decision has succeeded and there are members.
pub open spec fn spec_constitution_functional(c: CollectiveActor) -> bool {
    c.successful_decisions > 0 && c.members@.len() > 0
}

pub open spec fn spec_promotion_criteria(c: CollectiveActor) -> PromotionCriteria {
    PromotionCriteria {
        boundary_clarity: spec_boundary_clarity(c),
        membership_rules: spec_membership_rules(c),
        shared_resources: spec_shared_resources(c),
        decision_procedure: if spec_constitution_functional(c) { 80 } else { 40 },
        external_capacity: c.external_recognition,
    }
}

/// The state a lifecycle step moves to, if any.
pub open spec fn next_lifecycle_state(c: CollectiveActor) -> Option<CollectiveLifecycleState> {
    match c.lifecycle_state {
        CollectiveLifecycleState::EphemeralCoordination => {
            if c.members@.len() >= 3 && spec_boundary_clarity(c) > 40 {
                Some(CollectiveLifecycleState::ProtoGroup)
            } else {
                None
            }
        },
        CollectiveLifecycleState::ProtoGroup => {
            if spec_meets_threshold(spec_promotion_criteria(c)) {
                Some(CollectiveLifecycleState::UnstableCollective)
            } else {
                None
            }
        },
        CollectiveLifecycleState::UnstableCollective => {
            if c.legitimacy > 60 && c.successful_decisions > c.failed_decisions * 2 {
                Some(CollectiveLifecycleState::StabilizedCollective)
            } else if c.legitimacy < 30 || c.failed_decisions > c.successful_decisions {
                Some(CollectiveLifecycleState::FragmentingCollective)
            } else {
                None
            }
        },
        CollectiveLifecycleState::StabilizedCollective => {
            if c.legitimacy < 40 || c.factionalism > 70 {
                Some(CollectiveLifecycleState::FragmentingCollective)
            } else {
                None
            }
        },
        CollectiveLifecycleState::FragmentingCollective => {
            if c.legitimacy < 20 || c.members@.len() < 3 {
                Some(CollectiveLifecycleState::Dissolved)
            } else if c.legitimacy > 50 && c.factionalism < 50 {
                Some(CollectiveLifecycleState::StabilizedCollective)
            } else {
                None
            }
        },
        CollectiveLifecycleState::Dissolved => None,
    }
}

/// The collective after one lifecycle step at `tick`.
pub open spec fn lifecycle_step(c: CollectiveActor, tick: u64) -> CollectiveActor {
    match next_lifecycle_state(c) {
        Some(st) => CollectiveActor { lifecycle_state: st, last_transition_tick: tick, ..c },
        None => c,
    }
}

/// The moves of the lifecycle: ephemeral to proto, proto to unstable,
/// unstable to stabilized or fragmenting, stabilized to fragmenting, and
/// fragmenting back to stabilized or on to dissolved.
pub open spec fn allowed_transition(from: CollectiveLifecycleState, to: CollectiveLifecycleState) -> bool {
    match (from, to) {
        (CollectiveLifecycleState::EphemeralCoordination, CollectiveLifecycleState::ProtoGroup) => true,
        (CollectiveLifecycleState::ProtoGroup, CollectiveLifecycleState::UnstableCollective) => true,
        (CollectiveLifecycleState::UnstableCollective, CollectiveLifecycleState::StabilizedCollective) => true,
        (CollectiveLifecycleState::UnstableCollective, CollectiveLifecycleState::FragmentingCollective) => true,
        (CollectiveLifecycleState::StabilizedCollective, CollectiveLifecycleState::FragmentingCollective) => true,
        (CollectiveLifecycleState::FragmentingCollective, CollectiveLifecycleState::StabilizedCollective) => true,
        (CollectiveLifecycleState::FragmentingCollective, CollectiveLifecycleState::Dissolved) => true,
        _ => false,
    }
}

/// A lifecycle step moves a collective exactly when its state changes; every
/// move is one of the allowed transitions and records the step's tick; a
/// dissolved collective never moves; a step that does not move changes
/// nothing; and no step changes anything but the state and the transition tick.
pub proof fn lemma_lifecycle_transitions(c: CollectiveActor, tick: u64)
    ensures
        (next_lifecycle_state(c) is Some) == (lifecycle_step(c, tick).lifecycle_state != c.lifecycle_state),
        next_lifecycle_state(c) is Some ==> {
            &&& lifecycle_step(c, tick).last_transition_tick == tick
            &&& allowed_transition(c.lifecycle_state, lifecycle_step(c, tick).lifecycle_state)
        },
        next_lifecycle_state(c) is None ==> lifecycle_step(c, tick) == c,
        c.lifecycle_state == CollectiveLifecycleState::Dissolved ==> next_lifecycle_state(c) is None,
        lifecycle_step(c, tick) == (CollectiveActor {
            lifecycle_state: lifecycle_step(c, tick).lifecycle_state,
            last_transition_tick: lifecycle_step(c, tick).last_transition_tick,
            ..c
        }),
{
}

pub open spec fn spec_institutional_compatibility(a: DecisionProcedure, b: DecisionProcedure) -> u8 {
    if a == b {
        80
    } else {
        match (a, b) {
            (DecisionProcedure::MajorityVote, DecisionProcedure::Consensus)
            | (DecisionProcedure::Consensus, DecisionProcedure::MajorityVote) => 60,
            (DecisionProcedure::CommandHierarchy, DecisionProcedure::PatriarchalDominance)
            | (DecisionProcedure::PatriarchalDominance, DecisionProcedure::CommandHierarchy) => 70,
            _ => 40,
        }
    }
}

/// Some member of `a` is also a member of `b`.
pub open spec fn members_overlap(a: Seq<MemberEntry>, b: Seq<MemberEntry>) -> bool {
    exists|i: int| 0 <= i < a.len() && (lookup_member(b, (#[trigger] a[i]).0) is Some)
}

pub open spec fn spec_merge_criteria(a: CollectiveActor, b: CollectiveActor) -> MergeCriteria {
    MergeCriteria {
        compatible_institutions: spec_institutional_compatibility(a.constitution, b.constitution),
        coordination_benefit: sat_sub_u8(
            min_int(a.members@.len() + b.members@.len() as int, 50),
            (a.factionalism + b.factionalism) / 4,
        ),
        manageable_factional_distance: if members_overlap(a.members@, b.members@) { 70 } else { 50 },
        asset_integration_possible: (100 - if a.resource_centralization > b.resource_centralization {
            a.resource_centralization - b.resource_centralization
        } else {
            b.resource_centralization - a.resource_centralization
        }) as u8,
    }
}

/// The factional-distance overlap of `a` with `b` implies that of `b` with `a`.
proof fn lemma_overlap_one_way(a: Seq<MemberEntry>, b: Seq<MemberEntry>)
    requires
        members_overlap(a, b),
    ensures
        members_overlap(b, a),
{
    let i = choose|i: int| 0 <= i < a.len() && (lookup_member(b, (#[trigger] a[i]).0) is Some);
    let k = a[i].0;
    lemma_find_member(b, k);
    let j = find_member(b, k);
    lemma_find_member(a, k);
    assert(b[j].0 == k);
    assert(lookup_member(a, b[j].0) is Some);
}

/// Merge criteria are symmetric: `a` judged against `b` scores as `b` against
/// `a` on every criterion. Institutions score 80 exactly when the two share a
/// constitution, assets score 100 less the gap in centralization (where it is
/// at most 100), and the factional distance is 70 exactly when the two share
/// a member (50 otherwise).
pub proof fn lemma_merge_criteria_symmetric(a: CollectiveActor, b: CollectiveActor)
    ensures
        spec_merge_criteria(a, b) == spec_merge_criteria(b, a),
        (spec_merge_criteria(a, b).compatible_institutions == 80) == (a.constitution == b.constitution),
        -100 <= a.resource_centralization - b.resource_centralization <= 100
            ==> spec_merge_criteria(a, b).asset_integration_possible == 100 - (if a.resource_centralization
            >= b.resource_centralization {
            a.resource_centralization - b.resource_centralization
        } else {
            b.resource_centralization - a.resource_centralization
        }),
        spec_merge_criteria(a, b).manageable_factional_distance == (if members_overlap(a.members@, b.members@) {
            70u8
        } else {
            50u8
        }),
{
    if members_overlap(a.members@, b.members@) {
        lemma_overlap_one_way(a.members@, b.members@);
    }
    if members_overlap(b.members@, a.members@) {
        lemma_overlap_one_way(b.members@, a.members@);
    }
}

/// The factionalism sum that `can_merge_with` takes in `u8` fits there, and
/// the centralizations differ by at most 100.
pub open spec fn merge_ok(a: CollectiveActor, b: CollectiveActor) -> bool {
    &&& a.factionalism + b.factionalism <= 255
    &&& -100 <= a.resource_centralization - b.resource_centralization <= 100
}

pub open spec fn cohesion_sum(f: Seq<(u64, Faction)>) -> nat
    decreases f.len(),
{
    if f.len() == 0 { 0 } else { cohesion_sum(f.drop_last()) + f.last().1.internal_cohesion as nat }
}

pub open spec fn spec_split_criteria(c: CollectiveActor) -> SplitCriteria {
    SplitCriteria {
        identifiable_subgroups: if c.factionalism > 50 { 80 } else { 30 },
        independent_cohesion: if c.factions@.len() == 0 {
            0
        } else {
            (cohesion_sum(c.factions@) / c.factions@.len()) as u8
        },
        severe_disagreement: if c.legitimacy < 30 { 80 } else { 20 },
        independent_action_path: if c.members@.len() >= 6 { 70 } else { 40 },
    }
}

/// The factions' cohesion sums in `u8` without overflow.
pub open spec fn split_ok(c: CollectiveActor) -> bool {
    cohesion_sum(c.factions@) <= 255
}

proof fn lemma_cohesion_prefix(f: Seq<(u64, Faction)>, n: int)
    requires
        0 <= n <= f.len(),
    ensures
        cohesion_sum(f.take(n)) <= cohesion_sum(f),
    decreases f.len(),
{
    if n < f.len() {
        assert(f.drop_last().take(n) =~= f.take(n));
        lemma_cohesion_prefix(f.drop_last(), n);
    } else {
        assert(f.take(n) =~= f);
    }
}

fn mul4_cap40(n: usize) -> (r: u8)
    ensures
        r == min_int(4 * n, 40),
{
    if n >= 10 { 40 } else { (n * 4) as u8 }
}

impl CollectiveActor {
    fn calculate_boundary_clarity(&self) -> (r: u8)
        ensures
            r == spec_boundary_clarity(*self),
    {
        let n = self.members.len();
        if n < 3 {
            return 50;
        }
        let size_factor: u8 = 50 + mul4_cap40(n);
        let d = self.successful_decisions;
        let stability_factor: u8 = if d >= 2 { 20 } else { (d * 10) as u8 };
        let t: u8 = size_factor + stability_factor;
        if t > 100 { 100 } else { t }
    }

    fn any_role(&self) -> (b: bool)
        ensures
            b == has_roles(self.members@),
    {
        let n = self.members.len();
        let mut i: usize = 0;
        while i < n
            invariant
                n == self.members@.len(),
                0 <= i <= n,
                forall|j: int| 0 <= j < i ==> (#[trigger] self.members@[j]).1.role == Role::Member,
            decreases n - i,
        {
            let e = self.members.entry_at(i);
            if e.1.role != Role::Member {
                return true;
            }
            i = i + 1;
        }
        false
    }

    fn calculate_membership_rules(&self) -> (r: u8)
        ensures
            r == spec_membership_rules(*self),
    {
        let role_score: u8 = if self.any_role() { 60 } else { 40 };
        let size_bonus = mul4_cap40(self.members.len());
        let t: u8 = role_score + self.institutionalization / 2 + size_bonus;
        if t > 100 { 100 } else { t }
    }

    /// The pooled total, capped at 100 (summed with the cap, so it cannot overflow).
    fn pooled_total_capped(&self) -> (t: u64)
        ensures
            t == min_int(pool_total(self.pooled_resources@) as int, 100),
    {
        let n = self.pooled_resources.len();
        let ghost p = self.pooled_resources@;
        let mut t: u64 = 0;
        let mut i: usize = 0;
        while i < n
            invariant
                n == p.len(),
                p == self.pooled_resources@,
                0 <= i <= n,
                t == min_int(pool_total(p.take(i as int)) as int, 100),
            decreases n - i,
        {
            proof {
                assert(p.take(i + 1).drop_last() =~= p.take(i as int));
            }
            let v = self.pooled_resources.entry_at(i).1;
            t = if v >= 100 - t { 100 } else { t + v };
            i = i + 1;
        }
        proof {
            assert(p.take(n as int) =~= p);
        }
        t
    }

    fn calculate_shared_resources(&self) -> (r: u8)
        ensures
            r == spec_shared_resources(*self),
    {
        if self.pooled_resources.is_empty() {
            return 20;
        }
        let total = self.pooled_total_capped();
        ((self.resource_centralization as u16 + total as u16) / 2) as u8
    }

    fn constitution_is_functional(&self) -> (b: bool)
        ensures
            b == spec_constitution_functional(*self),
    {
        self.successful_decisions > 0 && !self.members.is_empty()
    }

    /// The promotion criteria of this collective.
    pub fn calculate_promotion_criteria(&self) -> (c: PromotionCriteria)
        ensures
            c == spec_promotion_criteria(*self),
    {
        PromotionCriteria {
            boundary_clarity: self.calculate_boundary_clarity(),
            membership_rules: self.calculate_membership_rules(),
            shared_resources: self.calculate_shared_resources(),
            decision_procedure: if self.constitution_is_functional() { 80 } else { 40 },
            external_capacity: self.external_recognition,
        }
    }

    /// Moves to the next lifecycle state where its condition holds, recording
    /// the tick; returns whether a transition happened.
    pub fn attempt_lifecycle_transition(&mut self, tick: u64) -> (moved: bool)
        ensures
            moved == (next_lifecycle_state(*old(self)) is Some),
            *final(self) == lifecycle_step(*old(self), tick),
            moved == (final(self).lifecycle_state != old(self).lifecycle_state),
            moved ==> final(self).last_transition_tick == tick
                && allowed_transition(old(self).lifecycle_state, final(self).lifecycle_state),
            !moved ==> *final(self) == *old(self),
    {
        proof {
            lemma_lifecycle_transitions(*self, tick);
        }
        let new_state = match self.lifecycle_state {
            CollectiveLifecycleState::EphemeralCoordination => {
                if self.members.len() >= 3 && self.calculate_boundary_clarity() > 40 {
                    Some(CollectiveLifecycleState::ProtoGroup)
                } else {
                    None
                }
            },
            CollectiveLifecycleState::ProtoGroup => {
                let criteria = self.calculate_promotion_criteria();
                if criteria.meets_threshold() {
                    Some(CollectiveLifecycleState::UnstableCollective)
                } else {
                    None
                }
            },
            CollectiveLifecycleState::UnstableCollective => {
                if self.legitimacy > 60 && self.successful_decisions as u128 > self.failed_decisions as u128 * 2 {
                    Some(CollectiveLifecycleState::StabilizedCollective)
                } else if self.legitimacy < 30 || self.failed_decisions > self.successful_decisions {
                    Some(CollectiveLifecycleState::FragmentingCollective)
                } else {
                    None
                }
            },
            CollectiveLifecycleState::StabilizedCollective => {
                if self.legitimacy < 40 || self.factionalism > 70 {
                    Some(CollectiveLifecycleState::FragmentingCollective)
                } else {
                    None
                }
            },
            CollectiveLifecycleState::FragmentingCollective => {
                if self.legitimacy < 20 || self.members.len() < 3 {
                    Some(CollectiveLifecycleState::Dissolved)
                } else if self.legitimacy > 50 && self.factionalism < 50 {
                    Some(CollectiveLifecycleState::StabilizedCollective)
                } else {
                    None
                }
            },
            CollectiveLifecycleState::Dissolved => None,
        };
        match new_state {
            Some(state) => {
                self.lifecycle_state = state;
                self.last_transition_tick = tick;
                true
            },
            None => false,
        }
    }

    fn calculate_factional_distance(&self, other: &CollectiveActor) -> (r: u8)
        ensures
            r == (if members_overlap(self.members@, other.members@) { 70u8 } else { 50u8 }),
    {
        let n = self.members.len();
        let mut i: usize = 0;
        while i < n
            invariant
                n == self.members@.len(),
                0 <= i <= n,
                forall|j: int| 0 <= j < i ==> lookup_member(other.members@, (#[trigger] self.members@[j]).0) is None,
            decreases n - i,
        {
            let e = self.members.entry_at(i);
            if other.members.contains_key(&e.0) {
                return 70;
            }
            i = i + 1;
        }
        50
    }

    /// How well this collective could merge with `other`.
    pub fn can_merge_with(&self, other: &CollectiveActor) -> (m: MergeCriteria)
        requires
            merge_ok(*self, *other),
        ensures
            m == spec_merge_criteria(*self, *other),
    {
        let compatible_institutions: u8 = if self.constitution == other.constitution {
            80
        } else {
            match (self.constitution, other.constitution) {
                (DecisionProcedure::MajorityVote, DecisionProcedure::Consensus)
                | (DecisionProcedure::Consensus, DecisionProcedure::MajorityVote) => 60,
                (DecisionProcedure::CommandHierarchy, DecisionProcedure::PatriarchalDominance)
                | (DecisionProcedure::PatriarchalDominance, DecisionProcedure::CommandHierarchy) => 70,
                _ => 40,
            }
        };
        let n1 = self.members.len();
        let n2 = other.members.len();
        let size_benefit: u8 = if n1 >= 50 || n2 >= 50 - n1 { 50 } else { (n1 + n2) as u8 };
        let faction_penalty: u8 = (self.factionalism + other.factionalism) / 4;
        let coordination_benefit: u8 = if size_benefit >= faction_penalty {
            size_benefit - faction_penalty
        } else {
            0
        };
        let diff: u8 = if self.resource_centralization > other.resource_centralization {
            self.resource_centralization - other.resource_centralization
        } else {
            other.resource_centralization - self.resource_centralization
        };
        MergeCriteria {
            compatible_institutions,
            coordination_benefit,
            manageable_factional_distance: self.calculate_factional_distance(other),
            asset_integration_possible: 100 - diff,
        }
    }

    /// How strongly this collective tends to split.
    pub fn should_split(&self) -> (c: SplitCriteria)
        requires
            split_ok(*self),
        ensures
            c == spec_split_criteria(*self),
    {
        let cohesion: u8 = if self.factions.len() == 0 {
            0
        } else {
            let n = self.factions.len();
            let ghost f = self.factions@;
            let mut sum: u8 = 0;
            let mut i: usize = 0;
            while i < n
                invariant
                    n == f.len(),
                    f == self.factions@,
                    0 <= i <= n,
                    cohesion_sum(f) <= 255,
                    sum == cohesion_sum(f.take(i as int)),
                decreases n - i,
            {
                proof {
                    assert(f.take(i + 1).drop_last() =~= f.take(i as int));
                    lemma_cohesion_prefix(f, i + 1);
                }
                sum = sum + self.factions[i].1.internal_cohesion;
                i = i + 1;
            }
            proof {
                assert(f.take(n as int) =~= f);
            }
            (sum as usize / n) as u8
        };
        SplitCriteria {
            identifiable_subgroups: if self.factionalism > 50 { 80 } else { 30 },
            independent_cohesion: cohesion,
            severe_disagreement: if self.legitimacy < 30 { 80 } else { 20 },
            independent_action_path: if self.members.len() >= 6 { 70 } else { 40 },
        }
    }

    /// Pressure on a member works through constraints only: for a member one
    /// compliance roll is drawn, and the agent itself is left as it was.
    pub fn apply_downward_causation(&self, agent: &mut Individual, rng: &mut DeterministicRng)
        ensures
            *final(agent) == *old(agent),
            final(rng)@ == (if lookup_member(self.members@, old(agent).id) is Some {
                bounded_state(old(rng)@, 100)
            } else {
                old(rng)@
            }),
    {
        if self.members.contains_key(&agent.id) {
            let _roll = rng.next_bounded(100);
        }
    }
}

/// Kinds of collective proposal.
#[derive(Debug, Clone, Copy, PartialEq, Eq, Structural)]
pub enum ProposalType {
    ResourceAllocation,
    MembershipChange,
    ConstitutionChange,
    ExternalAction,
    MergeWithOther,
    SplitCollective,
}

/// A proposal put to a collective decision.
#[derive(Debug, Clone)]
pub struct Proposal {
    pub proposal_type: ProposalType,
    pub description: String,
}

/// Outcome of a collective decision.
#[derive(Debug, Clone, Copy, PartialEq, Eq, Structural)]
pub struct DecisionOutcome {
    pub passed: bool,
    pub support_votes: u64,
    pub opposition_votes: u64,
    pub abstentions: u64,
    pub compliance_level: u8,
}

/// Weighted votes of the members, in table order, each member drawing one
/// roll below 100: support below the collective pressure left after the
/// member's dissent, opposition in the next `dissent` values, abstention
/// otherwise. Returns (support, opposition, abstentions, generator state).
pub open spec fn vote_tally(s: Seq<MemberEntry>, legitimacy: u8, st: u64) -> (nat, nat, nat, u64)
    decreases s.len(),
{
    if s.len() == 0 {
        (0, 0, 0, st)
    } else {
        let prev = vote_tally(s.drop_last(), legitimacy, st);
        let m = s.last().1;
        let pressure = legitimacy as int * m.compliance_propensity as int / 100;
        let threshold = max_int(pressure - m.dissent_level as int, 0);
        let roll = bounded_value(prev.3, 100);
        let w = m.influence_weight as nat;
        let next = bounded_state(prev.3, 100);
        if roll < threshold {
            (prev.0 + w, prev.1, prev.2, next)
        } else if roll < threshold + m.dissent_level {
            (prev.0, prev.1 + w, prev.2, next)
        } else {
            (prev.0, prev.1, prev.2 + w, next)
        }
    }
}

/// Every member's weight is counted exactly once, as support, opposition or
/// abstention; with no legitimacy nobody supports; with no dissent anywhere
/// nobody opposes; and when legitimacy and every member's compliance are full
/// and nobody dissents, all support.
pub proof fn lemma_vote_tally_laws(s: Seq<MemberEntry>, legitimacy: u8, st: u64)
    ensures
        vote_tally(s, legitimacy, st).0 + vote_tally(s, legitimacy, st).1 + vote_tally(s, legitimacy, st).2
            == sum_weights(s),
        legitimacy == 0 ==> vote_tally(s, legitimacy, st).0 == 0,
        (forall|i: int| 0 <= i < s.len() ==> (#[trigger] s[i]).1.dissent_level == 0) ==> vote_tally(s, legitimacy, st).1
            == 0,
        (legitimacy == 100 && forall|i: int|
            0 <= i < s.len() ==> (#[trigger] s[i]).1.dissent_level == 0 && s[i].1.compliance_propensity == 100)
            ==> vote_tally(s, legitimacy, st).0 == sum_weights(s),
    decreases s.len(),
{
    if s.len() > 0 {
        let t = s.drop_last();
        assert forall|i: int| 0 <= i < t.len() implies #[trigger] t[i] == s[i] by {}
        lemma_vote_tally_laws(t, legitimacy, st);
        assert(s.last() == s[s.len() - 1]);
        let prev = vote_tally(t, legitimacy, st);
        assert(bounded_value(prev.3, 100) < 100);
        if legitimacy == 0 {
            let c = s.last().1.compliance_propensity as int;
            assert(legitimacy as int * c / 100 == 0) by (nonlinear_arith)
                requires
                    legitimacy == 0,
            ;
        }
    }
}

/// Each count of a prefix's tally is at most that of the whole table.
proof fn lemma_tally_prefix(s: Seq<MemberEntry>, legitimacy: u8, st: u64, n: int)
    requires
        0 <= n <= s.len(),
    ensures
        vote_tally(s.take(n), legitimacy, st).0 <= vote_tally(s, legitimacy, st).0,
        vote_tally(s.take(n), legitimacy, st).1 <= vote_tally(s, legitimacy, st).1,
        vote_tally(s.take(n), legitimacy, st).2 <= vote_tally(s, legitimacy, st).2,
    decreases s.len(),
{
    if n < s.len() {
        assert(s.drop_last().take(n) =~= s.take(n));
        lemma_tally_prefix(s.drop_last(), legitimacy, st, n);
    } else {
        assert(s.take(n) =~= s);
    }
}

pub open spec fn is_elite(r: Role) -> bool {
    r == Role::Leader || r == Role::Elder || r == Role::Officer
}

/// Total weight of the members in elite roles.
pub open spec fn elite_influence(s: Seq<MemberEntry>) -> nat
    decreases s.len(),
{
    if s.len() == 0 {
        0
    } else {
        elite_influence(s.drop_last()) + if is_elite(s.last().1.role) { s.last().1.influence_weight as nat } else { 0 }
    }
}

/// Total weight of the elite members whose compliance exceeds 50.
pub open spec fn elite_support(s: Seq<MemberEntry>) -> nat
    decreases s.len(),
{
    if s.len() == 0 {
        0
    } else {
        elite_support(s.drop_last()) + if is_elite(s.last().1.role) && s.last().1.compliance_propensity > 50 {
            s.last().1.influence_weight as nat
        } else {
            0
        }
    }
}

pub open spec fn has_leader(s: Seq<MemberEntry>) -> bool {
    exists|i: int| 0 <= i < s.len() && (#[trigger] s[i]).1.role == Role::Leader
}

/// Whether the constitution passes a proposal with the given weighted votes.
pub open spec fn decision_passes(proc: DecisionProcedure, s: Seq<MemberEntry>, support: nat, opposition: nat) -> bool {
    match proc {
        DecisionProcedure::MajorityVote => support > opposition,
        DecisionProcedure::Consensus => opposition == 0 && support > 0,
        DecisionProcedure::CommandHierarchy => if has_leader(s) { support > 0 } else { support > opposition },
        DecisionProcedure::WeightedCouncil => support > opposition * 3 / 2,
        DecisionProcedure::PatriarchalDominance | DecisionProcedure::OligarchicDominance => {
            elite_support(s) > elite_influence(s) / 2
        },
    }
}

/// How each constitution decides from the weighted votes: a majority needs
/// more support than opposition; consensus needs some support and no
/// opposition at all; a hierarchy with a leader passes whatever has some
/// support, and without one needs a majority; a weighted council needs support
/// above one and a half times the opposition (rounded down); and the elite
/// constitutions pass when the supporting elite outweighs half the elite.
pub proof fn lemma_decision_rules(proc: DecisionProcedure, s: Seq<MemberEntry>, support: nat, opposition: nat)
    ensures
        proc == DecisionProcedure::MajorityVote ==> (decision_passes(proc, s, support, opposition) <==> support > opposition),
        proc == DecisionProcedure::Consensus ==> (decision_passes(proc, s, support, opposition) <==> (opposition == 0
            && support > 0)),
        proc == DecisionProcedure::Consensus && opposition > 0 ==> !decision_passes(proc, s, support, opposition),
        proc == DecisionProcedure::CommandHierarchy ==> (decision_passes(proc, s, support, opposition) <==> (if has_leader(s) {
            support > 0
        } else {
            support > opposition
        })),
        proc == DecisionProcedure::WeightedCouncil ==> (decision_passes(proc, s, support, opposition) <==> support > (3
            * opposition) / 2),
        (proc == DecisionProcedure::PatriarchalDominance || proc == DecisionProcedure::OligarchicDominance) ==> (
        decision_passes(proc, s, support, opposition) <==> elite_support(s) > elite_influence(s) / 2),
        support == 0 ==> (proc == DecisionProcedure::MajorityVote || proc == DecisionProcedure::Consensus
            || proc == DecisionProcedure::CommandHierarchy || proc == DecisionProcedure::WeightedCouncil)
            ==> !decision_passes(proc, s, support, opposition),
{
}

/// Share of support among all votes, in percent (0 with no votes).
pub open spec fn compliance_of(support: nat, opposition: nat, abstentions: nat) -> u8 {
    let total = support + opposition + abstentions;
    if total > 0 { (support * 100 / total) as u8 } else { 0 }
}

/// The vote counts stay within `u64` where the decision computes with them,
/// and the counter that the outcome increments is below its maximum.
pub open spec fn decision_ok(c: CollectiveActor, st: u64) -> bool {
    let t = vote_tally(c.members@, c.legitimacy, st);
    let passed = decision_passes(c.constitution, c.members@, t.0, t.1);
    let compliance = compliance_of(t.0, t.1, t.2);
    &&& t.0 * 100 <= u64::MAX
    &&& t.0 + t.1 + t.2 <= u64::MAX
    &&& c.constitution == DecisionProcedure::WeightedCouncil ==> t.1 * 3 <= u64::MAX
    &&& passed && compliance > 70 ==> c.successful_decisions < u64::MAX
    &&& passed && 40 < compliance <= 70 ==> c.partial_compliance_decisions < u64::MAX
    &&& passed && compliance <= 40 ==> c.failed_decisions < u64::MAX
}

impl CollectiveActor {
    fn elite_sums(&self) -> (r: (u128, u128))
        ensures
            r.0 == elite_influence(self.members@),
            r.1 == elite_support(self.members@),
    {
        let n = self.members.len();
        let ghost s = self.members@;
        let mut inf: u128 = 0;
        let mut sup: u128 = 0;
        let mut i: usize = 0;
        while i < n
            invariant
                n == s.len(),
                s == self.members@,
                0 <= i <= n,
                inf == elite_influence(s.take(i as int)),
                sup == elite_support(s.take(i as int)),
                inf <= 255 * i,
                sup <= 255 * i,
            decreases n - i,
        {
            proof {
                assert(s.take(i + 1).drop_last() =~= s.take(i as int));
            }
            let m = self.members.entry_at(i).1;
            let elite = m.role == Role::Leader || m.role == Role::Elder || m.role == Role::Officer;
            if elite {
                inf = inf + m.influence_weight as u128;
                if m.compliance_propensity > 50 {
                    sup = sup + m.influence_weight as u128;
                }
            }
            i = i + 1;
        }
        proof {
            assert(s.take(n as int) =~= s);
        }
        (inf, sup)
    }

    fn any_leader(&self) -> (b: bool)
        ensures
            b == has_leader(self.members@),
    {
        let n = self.members.len();
        let mut i: usize = 0;
        while i < n
            invariant
                n == self.members@.len(),
                0 <= i <= n,
                forall|j: int| 0 <= j < i ==> (#[trigger] self.members@[j]).1.role != Role::Leader,
            decreases n - i,
        {
            if self.members.entry_at(i).1.role == Role::Leader {
                return true;
            }
            i = i + 1;
        }
        false
    }

    /// Puts a proposal to the members: each member, in table order, draws one
    /// roll from `rng` and votes with its influence weight; the constitution
    /// decides, and a passed decision counts as successful (compliance above
    /// 70), partial (above 40) or failed.
    pub fn make_decision(&mut self, proposal: &Proposal, rng: &mut DeterministicRng) -> (out: DecisionOutcome)
        requires
            decision_ok(*old(self), old(rng)@),
        ensures
            ({
                let t = vote_tally(old(self).members@, old(self).legitimacy, old(rng)@);
                let passed = decision_passes(old(self).constitution, old(self).members@, t.0, t.1);
                let compliance = compliance_of(t.0, t.1, t.2);
                &&& out == (DecisionOutcome {
                    passed,
                    support_votes: t.0 as u64,
                    opposition_votes: t.1 as u64,
                    abstentions: t.2 as u64,
                    compliance_level: compliance,
                })
                &&& final(rng)@ == t.3
                &&& *final(self) == (CollectiveActor {
                    successful_decisions: (old(self).successful_decisions
                        + if passed && compliance > 70 { 1int } else { 0int }) as u64,
                    partial_compliance_decisions: (old(self).partial_compliance_decisions
                        + if passed && 40 < compliance <= 70 { 1int } else { 0int }) as u64,
                    failed_decisions: (old(self).failed_decisions
                        + if passed && compliance <= 40 { 1int } else { 0int }) as u64,
                    ..*old(self)
                })
            }),
            old(self).constitution == DecisionProcedure::MajorityVote ==> (out.passed <==> out.support_votes
                > out.opposition_votes),
            old(self).constitution == DecisionProcedure::Consensus ==> (out.passed <==> (out.opposition_votes == 0
                && out.support_votes > 0)),
            old(self).constitution == DecisionProcedure::CommandHierarchy ==> (out.passed <==> (if has_leader(
                old(self).members@,
            ) {
                out.support_votes > 0
            } else {
                out.support_votes > out.opposition_votes
            })),
            old(self).constitution == DecisionProcedure::WeightedCouncil ==> (out.passed <==> out.support_votes > (3
                * out.opposition_votes) / 2),
            (old(self).constitution == DecisionProcedure::PatriarchalDominance || old(self).constitution
                == DecisionProcedure::OligarchicDominance) ==> (out.passed <==> elite_support(old(self).members@)
                > elite_influence(old(self).members@) / 2),
            out.compliance_level == (if out.support_votes + out.opposition_votes + out.abstentions > 0 {
                out.support_votes * 100 / (out.support_votes + out.opposition_votes + out.abstentions)
            } else {
                0
            }),
            final(self).successful_decisions == old(self).successful_decisions + (if out.passed
                && out.compliance_level > 70 {
                1int
            } else {
                0int
            }),
            final(self).partial_compliance_decisions == old(self).partial_compliance_decisions + (if out.passed && 40
                < out.compliance_level <= 70 {
                1int
            } else {
                0int
            }),
            final(self).failed_decisions == old(self).failed_decisions + (if out.passed && out.compliance_level <= 40 {
                1int
            } else {
                0int
            }),
            final(self).members == old(self).members && final(self).legitimacy == old(self).legitimacy,
            out.support_votes + out.opposition_votes + out.abstentions == sum_weights(old(self).members@),
            old(self).legitimacy == 0 ==> out.support_votes == 0,
    {
        proof {
            let t = vote_tally(self.members@, self.legitimacy, rng@);
            lemma_decision_rules(self.constitution, self.members@, t.0, t.1);
            lemma_vote_tally_laws(self.members@, self.legitimacy, rng@);
        }
        let ghost s = self.members@;
        let ghost st0 = rng@;
        let ghost full = vote_tally(s, self.legitimacy, st0);
        let n = self.members.len();
        let mut total_support: u64 = 0;
        let mut total_opposition: u64 = 0;
        let mut abstentions: u64 = 0;
        let mut i: usize = 0;
        while i < n
            invariant
                n == s.len(),
                s == self.members@,
                full == vote_tally(s, self.legitimacy, st0),
                full.0 * 100 <= u64::MAX,
                full.0 + full.1 + full.2 <= u64::MAX,
                0 <= i <= n,
                total_support == vote_tally(s.take(i as int), self.legitimacy, st0).0,
                total_opposition == vote_tally(s.take(i as int), self.legitimacy, st0).1,
                abstentions == vote_tally(s.take(i as int), self.legitimacy, st0).2,
                rng@ == vote_tally(s.take(i as int), self.legitimacy, st0).3,
            decreases n - i,
        {
            proof {
                assert(s.take(i + 1).drop_last() =~= s.take(i as int));
                lemma_tally_prefix(s, self.legitimacy, st0, i + 1);
            }
            let m = self.members.entry_at(i).1;
            let lg = self.legitimacy as u64;
            let cp = m.compliance_propensity as u64;
            assert(lg * cp <= 65025) by (nonlinear_arith)
                requires
                    lg <= 255,
                    cp <= 255,
            ;
            let collective_pressure = lg * cp / 100;
            let personal_resistance = m.dissent_level as u64;
            let vote_roll = rng.next_bounded(100);
            let effective_threshold = collective_pressure.saturating_sub(personal_resistance);
            if vote_roll < effective_threshold {
                total_support = total_support + m.influence_weight as u64;
            } else if vote_roll < effective_threshold + personal_resistance {
                total_opposition = total_opposition + m.influence_weight as u64;
            } else {
                abstentions = abstentions + m.influence_weight as u64;
            }
            i = i + 1;
        }
        proof {
            assert(s.take(n as int) =~= s);
        }
        let passed = match self.constitution {
            DecisionProcedure::MajorityVote => total_support > total_opposition,
            DecisionProcedure::Consensus => total_opposition == 0 && total_support > 0,
            DecisionProcedure::CommandHierarchy => {
                if self.any_leader() {
                    total_support > 0
                } else {
                    total_support > total_opposition
                }
            },
            DecisionProcedure::WeightedCouncil => total_support > total_opposition * 3 / 2,
            DecisionProcedure::PatriarchalDominance | DecisionProcedure::OligarchicDominance => {
                let (elite_influence, elite_support) = self.elite_sums();
                elite_support > elite_influence / 2
            },
        };
        let total_votes = total_support + total_opposition + abstentions;
        let compliance_level: u8 = if total_votes > 0 {
            assert((total_support as int) * 100 / (total_votes as int) <= 100) by (nonlinear_arith)
                requires
                    total_support <= total_votes,
                    total_votes > 0,
            ;
            (total_support * 100 / total_votes) as u8
        } else {
            0
        };
        if passed {
            if compliance_level > 70 {
                self.successful_decisions = self.successful_decisions + 1;
            } else if compliance_level > 40 {
                self.partial_compliance_decisions = self.partial_compliance_decisions + 1;
            } else {
                self.failed_decisions = self.failed_decisions + 1;
            }
        }
        DecisionOutcome {
            passed,
            support_votes: total_support,
            opposition_votes: total_opposition,
            abstentions,
            compliance_level,
        }
    }
}

/// An entry of the registry: a collective under its key.
pub type RegistryEntry = (CollectiveId, CollectiveActor);

/// Index of the first entry with key `id`, or -1.
pub open spec fn find_collective(s: Seq<RegistryEntry>, id: CollectiveId) -> int
    decreases s.len(),
{
    if s.len() == 0 {
        -1
    } else {
        let r = find_collective(s.drop_last(), id);
        if r >= 0 {
            r
        } else if s.last().0 == id {
            s.len() - 1
        } else {
            -1
        }
    }
}

pub proof fn lemma_find_collective(s: Seq<RegistryEntry>, id: CollectiveId)
    ensures
        -1 <= find_collective(s, id) < s.len(),
        find_collective(s, id) >= 0 ==> s[find_collective(s, id)].0 == id,
        find_collective(s, id) >= 0 ==> forall|j: int| 0 <= j < find_collective(s, id) ==> s[j].0 != id,
        find_collective(s, id) < 0 ==> forall|j: int| 0 <= j < s.len() ==> s[j].0 != id,
    decreases s.len(),
{
    if s.len() > 0 {
        let t = s.drop_last();
        lemma_find_collective(t, id);
        assert(forall|j: int| 0 <= j < t.len() ==> t[j] == s[j]);
    }
}

/// The entries after storing `c` under `id`: an existing entry with that key
/// is replaced in place, otherwise the entry is appended.
pub open spec fn insert_collective(s: Seq<RegistryEntry>, id: CollectiveId, c: CollectiveActor) -> Seq<RegistryEntry> {
    let i = find_collective(s, id);
    if i >= 0 {
        s.update(i, (id, c))
    } else {
        s.push((id, c))
    }
}

/// The entries whose key is not `id`, in order.
pub open spec fn without_key(s: Seq<RegistryEntry>, id: CollectiveId) -> Seq<RegistryEntry>
    decreases s.len(),
{
    if s.len() == 0 {
        Seq::empty()
    } else if s.last().0 == id {
        without_key(s.drop_last(), id)
    } else {
        without_key(s.drop_last(), id).push(s.last())
    }
}

/// Keys are distinct and all below the next id to hand out.
pub open spec fn registry_wf(s: Seq<RegistryEntry>, next_id: u64) -> bool {
    &&& forall|i: int, j: int| 0 <= i < j < s.len() ==> (#[trigger] s[i]).0 != (#[trigger] s[j]).0
    &&& forall|i: int| 0 <= i < s.len() ==> (#[trigger] s[i]).0.0 < next_id
}

pub open spec fn collectives_of_type(s: Seq<RegistryEntry>, t: CollectiveType) -> Seq<CollectiveActor>
    decreases s.len(),
{
    if s.len() == 0 {
        Seq::empty()
    } else if s.last().1.collective_type == t {
        collectives_of_type(s.drop_last(), t).push(s.last().1)
    } else {
        collectives_of_type(s.drop_last(), t)
    }
}

/// The collectives that are not dissolved, in order.
pub open spec fn active_of(s: Seq<RegistryEntry>) -> Seq<CollectiveActor>
    decreases s.len(),
{
    if s.len() == 0 {
        Seq::empty()
    } else if s.last().1.lifecycle_state != CollectiveLifecycleState::Dissolved {
        active_of(s.drop_last()).push(s.last().1)
    } else {
        active_of(s.drop_last())
    }
}

/// For each collective that moves at `tick`, its key and the state it left.
pub open spec fn transitions_of(s: Seq<RegistryEntry>) -> Seq<(CollectiveId, CollectiveLifecycleState)>
    decreases s.len(),
{
    if s.len() == 0 {
        Seq::empty()
    } else if next_lifecycle_state(s.last().1) is Some {
        transitions_of(s.drop_last()).push((s.last().0, s.last().1.lifecycle_state))
    } else {
        transitions_of(s.drop_last())
    }
}

/// Keys of the collectives that `a` is a member of, in order.
pub open spec fn ids_with_member(s: Seq<RegistryEntry>, a: AgentId) -> Seq<CollectiveId>
    decreases s.len(),
{
    if s.len() == 0 {
        Seq::empty()
    } else if lookup_member(s.last().1.members@, a) is Some {
        ids_with_member(s.drop_last(), a).push(s.last().0)
    } else {
        ids_with_member(s.drop_last(), a)
    }
}

pub open spec fn sum_sizes(s: Seq<CollectiveActor>) -> nat
    decreases s.len(),
{
    if s.len() == 0 { 0 } else { sum_sizes(s.drop_last()) + s.last().members@.len() }
}

pub open spec fn sum_legitimacy(s: Seq<CollectiveActor>) -> nat
    decreases s.len(),
{
    if s.len() == 0 { 0 } else { sum_legitimacy(s.drop_last()) + s.last().legitimacy as nat }
}

pub open spec fn sum_factionalism(s: Seq<CollectiveActor>) -> nat
    decreases s.len(),
{
    if s.len() == 0 { 0 } else { sum_factionalism(s.drop_last()) + s.last().factionalism as nat }
}

/// Statistics about the active collectives.
#[derive(Debug, Clone, Copy, PartialEq, Eq, Structural)]
pub struct CollectiveStatistics {
    pub total_collectives: u64,
    pub total_members: u64,
    pub average_size: u64,
    pub average_legitimacy: u8,
    pub average_factionalism: u8,
}

impl Default for CollectiveStatistics {
    fn default() -> (r: Self)
        ensures
            r == (CollectiveStatistics {
                total_collectives: 0,
                total_members: 0,
                average_size: 0,
                average_legitimacy: 0,
                average_factionalism: 0,
            }),
    {
        CollectiveStatistics {
            total_collectives: 0,
            total_members: 0,
            average_size: 0,
            average_legitimacy: 0,
            average_factionalism: 0,
        }
    }
}

/// Statistics over the active collectives: their number, their members,
/// and the means (rounded down) of size, legitimacy and factionalism.
pub open spec fn spec_collective_statistics(s: Seq<RegistryEntry>) -> CollectiveStatistics {
    let a = active_of(s);
    let total = a.len();
    if total == 0 {
        CollectiveStatistics {
            total_collectives: 0,
            total_members: 0,
            average_size: 0,
            average_legitimacy: 0,
            average_factionalism: 0,
        }
    } else {
        CollectiveStatistics {
            total_collectives: total as u64,
            total_members: sum_sizes(a) as u64,
            average_size: (sum_sizes(a) / total) as u64,
            average_legitimacy: (sum_legitimacy(a) / total) as u8,
            average_factionalism: (sum_factionalism(a) / total) as u8,
        }
    }
}

/// The sums that `statistics` takes in `usize` and `u16` fit there.
pub open spec fn statistics_ok(s: Seq<RegistryEntry>) -> bool {
    let a = active_of(s);
    a.len() > 0 ==> {
        &&& sum_sizes(a) <= usize::MAX
        &&& sum_legitimacy(a) <= u16::MAX
        &&& sum_factionalism(a) <= u16::MAX
    }
}

proof fn lemma_collective_sums_prefix(s: Seq<CollectiveActor>, n: int)
    requires
        0 <= n <= s.len(),
    ensures
        sum_sizes(s.take(n)) <= sum_sizes(s),
        sum_legitimacy(s.take(n)) <= sum_legitimacy(s),
        sum_factionalism(s.take(n)) <= sum_factionalism(s),
        sum_legitimacy(s) <= 255 * s.len(),
        sum_factionalism(s) <= 255 * s.len(),
    decreases s.len(),
{
    if s.len() > 0 {
        lemma_collective_sums_prefix(s.drop_last(), 0);
    }
    if n < s.len() {
        assert(s.drop_last().take(n) =~= s.take(n));
        lemma_collective_sums_prefix(s.drop_last(), n);
    } else {
        assert(s.take(n) =~= s);
    }
}

/// Registry of the collective actors, each stored under its key.
#[derive(Debug, Clone)]
pub struct CollectiveRegistry {
    collectives: Vec<RegistryEntry>,
    next_id: u64,
}

impl View for CollectiveRegistry {
    type V = Seq<RegistryEntry>;

    closed spec fn view(&self) -> Seq<RegistryEntry> {
        self.collectives@
    }
}

impl Default for CollectiveRegistry {
    /// An empty registry whose next id is 0.
    fn default() -> (r: Self)
        ensures
            r@ == Seq::<RegistryEntry>::empty(),
            r.next_collective_id() == 0,
    {
        CollectiveRegistry { collectives: Vec::new(), next_id: 0 }
    }
}

/// After the first entry with key `id` in a prefix, a longer prefix finds it too.
proof fn lemma_find_collective_step(s: Seq<RegistryEntry>, id: CollectiveId, i: int)
    requires
        0 <= i < s.len(),
    ensures
        find_collective(s.take(i + 1), id) == (if find_collective(s.take(i), id) >= 0 {
            find_collective(s.take(i), id)
        } else if s[i].0 == id {
            i
        } else {
            -1
        }),
        without_key(s.take(i + 1), id) == (if s[i].0 == id {
            without_key(s.take(i), id)
        } else {
            without_key(s.take(i), id).push(s[i])
        }),
{
    assert(s.take(i + 1).drop_last() =~= s.take(i));
}

/// No entry is left under `id` once the entries with that key are taken out.
pub proof fn lemma_without_key_absent(s: Seq<RegistryEntry>, id: CollectiveId)
    ensures
        find_collective(without_key(s, id), id) < 0,
        forall|j: int| 0 <= j < without_key(s, id).len() ==> (#[trigger] without_key(s, id)[j]).0 != id,
        without_key(s, id).len() <= s.len(),
    decreases s.len(),
{
    if s.len() > 0 {
        lemma_without_key_absent(s.drop_last(), id);
    }
    lemma_find_collective(without_key(s, id), id);
}

/// With no entry under `id`, taking its entries out changes nothing.
pub proof fn lemma_without_missing_key(s: Seq<RegistryEntry>, id: CollectiveId)
    requires
        find_collective(s, id) < 0,
    ensures
        without_key(s, id) == s,
    decreases s.len(),
{
    lemma_find_collective(s, id);
    if s.len() > 0 {
        let t = s.drop_last();
        lemma_find_collective(t, id);
        assert forall|j: int| 0 <= j < t.len() implies t[j].0 != id by {
            assert(t[j] == s[j]);
        }
        lemma_without_missing_key(t, id);
        assert(t.push(s.last()) =~= s);
    }
}

impl CollectiveRegistry {
    /// The id the next created collective gets.
    pub closed spec fn next_collective_id(&self) -> u64 {
        self.next_id
    }

    /// An empty registry whose first id is 1.
    pub fn new() -> (r: Self)
        ensures
            r@ == Seq::<RegistryEntry>::empty(),
            r.next_collective_id() == 1,
    {
        CollectiveRegistry { collectives: Vec::new(), next_id: 1 }
    }

    fn index_of(&self, id: CollectiveId) -> (r: Option<usize>)
        ensures
            match r {
                Some(i) => i < self@.len() && find_collective(self@, id) == i as int,
                None => find_collective(self@, id) == -1,
            },
    {
        proof { lemma_find_collective(self@, id); }
        let mut i: usize = 0;
        while i < self.collectives.len()
            invariant
                0 <= i <= self@.len(),
                forall|j: int| 0 <= j < i ==> self@[j].0 != id,
            decreases self@.len() - i,
        {
            if self.collectives[i].0.0 == id.0 {
                proof { lemma_find_collective(self@, id); }
                return Some(i);
            }
            i = i + 1;
        }
        None
    }

    fn store(&mut self, id: CollectiveId, c: CollectiveActor)
        ensures
            final(self)@ == insert_collective(old(self)@, id, c),
            final(self).next_collective_id() == old(self).next_collective_id(),
    {
        match self.index_of(id) {
            Some(i) => {
                self.collectives.set(i, (id, c));
            },
            None => {
                self.collectives.push((id, c));
            },
        }
    }

    /// Creates a proto-group under the next id and stores it.
    pub fn create_collective(
        &mut self,
        collective_type: CollectiveType,
        tick: u64,
        constitution: DecisionProcedure,
    ) -> (id: CollectiveId)
        requires
            old(self).next_collective_id() < u64::MAX,
        ensures
            id == CollectiveId(old(self).next_collective_id()),
            final(self).next_collective_id() == old(self).next_collective_id() + 1,
            find_collective(final(self)@, id) >= 0,
            final(self)@ == insert_collective(old(self)@, id, final(self)@[find_collective(final(self)@, id)].1),
            is_fresh_actor(final(self)@[find_collective(final(self)@, id)].1, id, collective_type, tick, constitution),
    {
        let id = CollectiveId(self.next_id);
        self.next_id = self.next_id + 1;
        let collective = CollectiveActor::new(id, collective_type, tick, constitution);
        self.store(id, collective);
        proof {
            lemma_find_collective(old(self)@, id);
            lemma_find_collective(self@, id);
            let i = find_collective(old(self)@, id);
            if i >= 0 {
                assert(self@[i].0 == id);
            } else {
                assert(self@[old(self)@.len() as int].0 == id);
                assert forall|j: int| 0 <= j < old(self)@.len() implies self@[j].0 != id by {
                    assert(self@[j] == old(self)@[j]);
                }
            }
        }
        id
    }

    /// The collective stored under `id`.
    pub fn get(&self, id: CollectiveId) -> (r: Option<&CollectiveActor>)
        ensures
            match r {
                Some(c) => find_collective(self@, id) >= 0 && *c == self@[find_collective(self@, id)].1,
                None => find_collective(self@, id) < 0,
            },
    {
        match self.index_of(id) {
            Some(i) => Some(&self.collectives[i].1),
            None => None,
        }
    }

    /// The collective stored under `id`, to change in place; its key stays.
    pub fn get_mut(&mut self, id: CollectiveId) -> (r: Option<&mut CollectiveActor>)
        ensures
            final(self).next_collective_id() == old(self).next_collective_id(),
            r is None ==> find_collective(old(self)@, id) < 0 && final(self)@ == old(self)@,
            r matches Some(c) ==> find_collective(old(self)@, id) >= 0
                && *c == old(self)@[find_collective(old(self)@, id)].1
                && final(self)@ == old(self)@.update(find_collective(old(self)@, id), (id, *final(c))),
    {
        match self.index_of(id) {
            Some(i) => {
                proof { lemma_find_collective(self@, id); }
                Some(&mut self.collectives[i].1)
            },
            None => None,
        }
    }

    /// Takes the collective stored under `id` out of the registry.
    pub fn remove(&mut self, id: CollectiveId) -> (r: Option<CollectiveActor>)
        ensures
            final(self).next_collective_id() == old(self).next_collective_id(),
            final(self)@ == without_key(old(self)@, id),
            find_collective(old(self)@, id) < 0 ==> r is None && final(self)@ == old(self)@,
            find_collective(old(self)@, id) >= 0 ==> r == Some(old(self)@[find_collective(old(self)@, id)].1),
            find_collective(final(self)@, id) < 0,
    {
        let ghost s = self@;
        let n = self.collectives.len();
        let mut rest: Vec<RegistryEntry> = Vec::new();
        std::mem::swap(&mut self.collectives, &mut rest);
        let mut kept: Vec<RegistryEntry> = Vec::new();
        let mut taken: Option<CollectiveActor> = None;
        let mut i: usize = 0;
        while i < n
            invariant
                n == s.len(),
                rest@ == s.subrange(i as int, n as int),
                self.next_id == old(self).next_id,
                0 <= i <= n,
                kept@ == without_key(s.take(i as int), id),
                find_collective(s.take(i as int), id) < 0 ==> taken is None,
                find_collective(s.take(i as int), id) >= 0 ==> taken == Some(s[find_collective(s.take(i as int), id)].1),
            decreases n - i,
        {
            proof {
                lemma_find_collective_step(s, id, i as int);
                lemma_find_collective(s.take(i as int), id);
            }
            let e = rest.remove(0);
            proof {
                assert(e == s[i as int]);
                assert(rest@ =~= s.subrange(i + 1, n as int));
            }
            if e.0.0 == id.0 {
                if taken.is_none() {
                    taken = Some(e.1);
                }
            } else {
                kept.push(e);
            }
            i = i + 1;
        }
        proof {
            assert(s.take(n as int) =~= s);
            lemma_without_key_absent(s, id);
            if find_collective(s, id) < 0 {
                lemma_without_missing_key(s, id);
            }
        }
        self.collectives = kept;
        taken
    }

    /// All entries, in order.
    pub fn all(&self) -> (r: &[RegistryEntry])
        ensures
            r@ == self@,
    {
        self.collectives.as_slice()
    }

    /// All entries, to change in place.
    pub fn all_mut(&mut self) -> (r: &mut [RegistryEntry])
        ensures
            r@ == old(self)@,
            final(self)@ == final(r)@,
            final(self).next_collective_id() == old(self).next_collective_id(),
    {
        self.collectives.as_mut_slice()
    }

    /// The collectives of one type, in order.
    pub fn by_type(&self, collective_type: CollectiveType) -> (r: Vec<&CollectiveActor>)
        ensures
            r@.len() == collectives_of_type(self@, collective_type).len(),
            forall|i: int| 0 <= i < r@.len() ==> *(#[trigger] r@[i]) == collectives_of_type(self@, collective_type)[i],
    {
        let mut r: Vec<&CollectiveActor> = Vec::new();
        let mut i: usize = 0;
        while i < self.collectives.len()
            invariant
                0 <= i <= self@.len(),
                r@.len() == collectives_of_type(self@.take(i as int), collective_type).len(),
                forall|j: int| 0 <= j < r@.len() ==>
                    *(#[trigger] r@[j]) == collectives_of_type(self@.take(i as int), collective_type)[j],
            decreases self@.len() - i,
        {
            proof {
                assert(self@.take(i + 1).drop_last() =~= self@.take(i as int));
            }
            if self.collectives[i].1.collective_type == collective_type {
                r.push(&self.collectives[i].1);
            }
            i = i + 1;
        }
        proof {
            assert(self@.take(self@.len() as int) =~= self@);
        }
        r
    }

    /// The collectives that are not dissolved, in order.
    pub fn active_collectives(&self) -> (r: Vec<&CollectiveActor>)
        ensures
            r@.len() == active_of(self@).len(),
            forall|i: int| 0 <= i < r@.len() ==> *(#[trigger] r@[i]) == active_of(self@)[i],
    {
        let mut r: Vec<&CollectiveActor> = Vec::new();
        let mut i: usize = 0;
        while i < self.collectives.len()
            invariant
                0 <= i <= self@.len(),
                r@.len() == active_of(self@.take(i as int)).len(),
                forall|j: int| 0 <= j < r@.len() ==> *(#[trigger] r@[j]) == active_of(self@.take(i as int))[j],
            decreases self@.len() - i,
        {
            proof {
                assert(self@.take(i + 1).drop_last() =~= self@.take(i as int));
            }
            if self.collectives[i].1.lifecycle_state != CollectiveLifecycleState::Dissolved {
                r.push(&self.collectives[i].1);
            }
            i = i + 1;
        }
        proof {
            assert(self@.take(self@.len() as int) =~= self@);
        }
        r
    }

    /// Takes one lifecycle step in every collective; returns, for each that
    /// moved, its key and the state it left.
    pub fn update_lifecycle_states(&mut self, tick: u64) -> (r: Vec<(CollectiveId, CollectiveLifecycleState)>)
        ensures
            r@ == transitions_of(old(self)@),
            final(self)@.len() == old(self)@.len(),
            forall|i: int| 0 <= i < old(self)@.len() ==> #[trigger] final(self)@[i] == (old(self)@[i].0, lifecycle_step(old(self)@[i].1, tick)),
            final(self).next_collective_id() == old(self).next_collective_id(),
    {
        let ghost s0 = self@;
        let mut r: Vec<(CollectiveId, CollectiveLifecycleState)> = Vec::new();
        let n = self.collectives.len();
        let mut i: usize = 0;
        while i < n
            invariant
                n == s0.len(),
                self@.len() == n,
                self.next_id == old(self).next_id,
                0 <= i <= n,
                forall|j: int| 0 <= j < i ==> #[trigger] self@[j] == (s0[j].0, lifecycle_step(s0[j].1, tick)),
                forall|j: int| i <= j < n ==> #[trigger] self@[j] == s0[j],
                r@ == transitions_of(s0.take(i as int)),
            decreases n - i,
        {
            proof {
                assert(s0.take(i + 1).drop_last() =~= s0.take(i as int));
            }
            let (key, mut c) = self.collectives.remove(i);
            let old_state = c.lifecycle_state;
            if c.attempt_lifecycle_transition(tick) {
                r.push((key, old_state));
            }
            self.collectives.insert(i, (key, c));
            i = i + 1;
        }
        proof {
            assert(s0.take(n as int) =~= s0);
        }
        r
    }

    /// Keys of the collectives that `agent_id` belongs to, in order.
    pub fn collectives_for_agent(&self, agent_id: AgentId) -> (r: Vec<CollectiveId>)
        ensures
            r@ == ids_with_member(self@, agent_id),
    {
        let mut r: Vec<CollectiveId> = Vec::new();
        let mut i: usize = 0;
        while i < self.collectives.len()
            invariant
                0 <= i <= self@.len(),
                r@ == ids_with_member(self@.take(i as int), agent_id),
            decreases self@.len() - i,
        {
            proof {
                assert(self@.take(i + 1).drop_last() =~= self@.take(i as int));
            }
            if self.collectives[i].1.is_member(agent_id) {
                r.push(self.collectives[i].0);
            }
            i = i + 1;
        }
        proof {
            assert(self@.take(self@.len() as int) =~= self@);
        }
        r
    }

    /// Statistics about the active collectives.
    pub fn statistics(&self) -> (st: CollectiveStatistics)
        requires
            statistics_ok(self@),
        ensures
            st == spec_collective_statistics(self@),
    {
        let active = self.active_collectives();
        let total = active.len();
        if total == 0 {
            return CollectiveStatistics::default();
        }
        let ghost a = active_of(self@);
        let mut total_members: usize = 0;
        let mut legit: u16 = 0;
        let mut fact: u16 = 0;
        let mut i: usize = 0;
        while i < total
            invariant
                total == a.len(),
                a == active_of(self@),
                active@.len() == total,
                forall|j: int| 0 <= j < total ==> *(#[trigger] active@[j]) == a[j],
                0 <= i <= total,
                sum_sizes(a) <= usize::MAX,
                sum_legitimacy(a) <= u16::MAX,
                sum_factionalism(a) <= u16::MAX,
                total_members == sum_sizes(a.take(i as int)),
                legit == sum_legitimacy(a.take(i as int)),
                fact == sum_factionalism(a.take(i as int)),
            decreases total - i,
        {
            proof {
                assert(a.take(i + 1).drop_last() =~= a.take(i as int));
                lemma_collective_sums_prefix(a, i + 1);
            }
            let c = active[i];
            total_members = total_members + c.member_count();
            legit = legit + c.legitimacy as u16;
            fact = fact + c.factionalism as u16;
            i = i + 1;
        }
        proof {
            assert(a.take(total as int) =~= a);
        }
        CollectiveStatistics {
            total_collectives: total as u64,
            total_members: total_members as u64,
            average_size: (total_members / total) as u64,
            average_legitimacy: (legit as usize / total) as u8,
            average_factionalism: (fact as usize / total) as u8,
        }
    }
}

/// The member table of a merge: the entries of `s`, in order, join `acc`
/// at `tick` unless their agent is already there.
pub open spec fn merge_members(acc: Seq<MemberEntry>, s: Seq<MemberEntry>, tick: u64) -> Seq<MemberEntry>
    decreases s.len(),
{
    if s.len() == 0 {
        acc
    } else {
        let prev = merge_members(acc, s.drop_last(), tick);
        let e = s.last();
        if lookup_member(prev, e.0) is Some {
            prev
        } else {
            insert_member(prev, e.0, Membership { joined_tick: tick, ..e.1 })
        }
    }
}

/// The first entry of a table under `a` is found through its prefix when it
/// lies there, else it is the last entry when that one is under `a`.
proof fn lemma_lookup_member_last(s: Seq<MemberEntry>, a: AgentId)
    requires
        s.len() > 0,
    ensures
        lookup_member(s, a) == (if lookup_member(s.drop_last(), a) is Some {
            lookup_member(s.drop_last(), a)
        } else if s.last().0 == a {
            Some(s.last().1)
        } else {
            None
        }),
{
    let t = s.drop_last();
    lemma_find_member(t, a);
    if find_member(t, a) >= 0 {
        assert(s[find_member(t, a)] == t[find_member(t, a)]);
    }
}

/// The members of a merge are exactly those of either table: an agent of
/// `acc` keeps its membership unchanged, and an agent only in `s` joins with
/// its first membership there, stamped with `tick`. The result has no agent
/// twice when `acc` has none.
pub proof fn lemma_merge_members_laws(acc: Seq<MemberEntry>, s: Seq<MemberEntry>, tick: u64, a: AgentId)
    requires
        members_wf(acc),
    ensures
        members_wf(merge_members(acc, s, tick)),
        (lookup_member(merge_members(acc, s, tick), a) is Some) <==> (lookup_member(acc, a) is Some || lookup_member(
            s,
            a,
        ) is Some),
        lookup_member(acc, a) is Some ==> lookup_member(merge_members(acc, s, tick), a) == lookup_member(acc, a),
        (lookup_member(acc, a) is None && lookup_member(s, a) is Some) ==> lookup_member(merge_members(acc, s, tick), a)
            == Some(Membership { joined_tick: tick, ..lookup_member(s, a)->Some_0 }),
    decreases s.len(),
{
    if s.len() > 0 {
        let t = s.drop_last();
        let e = s.last();
        lemma_merge_members_laws(acc, t, tick, a);
        lemma_merge_members_laws(acc, t, tick, e.0);
        lemma_lookup_member_last(s, a);
        let prev = merge_members(acc, t, tick);
        if lookup_member(prev, e.0) is None {
            lemma_insert_member(prev, e.0, Membership { joined_tick: tick, ..e.1 });
        }
    }
}

/// The amount of `k` in a pool, 0 when absent.
pub open spec fn amount_of(p: Seq<(ResourceType, u64)>, k: ResourceType) -> int {
    match lookup_resource(p, k) {
        Some(v) => v as int,
        None => 0,
    }
}

/// The pool of a merge: each entry of `s`, in order, is added to `acc`.
pub open spec fn merge_pools(acc: Seq<(ResourceType, u64)>, s: Seq<(ResourceType, u64)>) -> Seq<(ResourceType, u64)>
    decreases s.len(),
{
    if s.len() == 0 {
        acc
    } else {
        let prev = merge_pools(acc, s.drop_last());
        insert_resource(prev, s.last().0, (amount_of(prev, s.last().0) + s.last().1) as u64)
    }
}

/// Sum of the amounts of all entries of `s` under `k`.
pub open spec fn total_of(s: Seq<(ResourceType, u64)>, k: ResourceType) -> nat
    decreases s.len(),
{
    if s.len() == 0 {
        0
    } else {
        total_of(s.drop_last(), k) + if s.last().0 == k { s.last().1 as nat } else { 0 }
    }
}

/// No resource type occurs twice in a pool.
pub open spec fn pool_keys_unique(s: Seq<(ResourceType, u64)>) -> bool {
    forall|i: int, j: int| 0 <= i < j < s.len() ==> (#[trigger] s[i]).0 != (#[trigger] s[j]).0
}

/// Storing `v` under `k` sets the amount of `k` to `v` and leaves every other
/// resource's amount as it was.
pub proof fn lemma_insert_resource_amount(p: Seq<(ResourceType, u64)>, k: ResourceType, v: u64, j: ResourceType)
    ensures
        amount_of(insert_resource(p, k, v), j) == (if j == k { v as int } else { amount_of(p, j) }),
{
    lemma_find_resource(p, k);
    lemma_find_resource(p, j);
    let q = insert_resource(p, k, v);
    lemma_find_resource(q, j);
    let fj = find_resource(q, j);
    let pj = find_resource(p, j);
    if j == k {
        if find_resource(p, k) >= 0 {
            assert(q[find_resource(p, k)].0 == k);
        } else {
            assert(q[p.len() as int].0 == k);
        }
    } else {
        if pj >= 0 {
            assert(q[pj] == p[pj]);
        }
        if fj >= 0 {
            if fj < p.len() {
                assert(q[fj] == p[fj] || fj == find_resource(p, k));
            }
        }
        assert forall|x: int| 0 <= x < p.len() && q[x].0 == j implies p[x] == q[x] by {}
    }
}

/// An entry of the pool under `k` carries the whole amount of `k` when no
/// resource type occurs twice.
pub proof fn lemma_total_of_unique(s: Seq<(ResourceType, u64)>, k: ResourceType)
    requires
        pool_keys_unique(s),
    ensures
        total_of(s, k) == amount_of(s, k),
    decreases s.len(),
{
    if s.len() > 0 {
        let t = s.drop_last();
        assert forall|i: int, j: int| 0 <= i < j < t.len() implies (#[trigger] t[i]).0 != (#[trigger] t[j]).0 by {
            assert(t[i] == s[i] && t[j] == s[j]);
        }
        lemma_total_of_unique(t, k);
        lemma_find_resource(t, k);
        lemma_find_resource(s, k);
        if s.last().0 == k {
            assert forall|x: int| 0 <= x < t.len() implies t[x].0 != k by {
                assert(t[x] == s[x]);
                assert(s[s.len() - 1] == s.last());
            }
            lemma_total_of_absent(t, k);
        } else {
            if find_resource(t, k) >= 0 {
                assert(s[find_resource(t, k)] == t[find_resource(t, k)]);
            }
        }
    }
}

proof fn lemma_total_of_absent(s: Seq<(ResourceType, u64)>, k: ResourceType)
    requires
        forall|x: int| 0 <= x < s.len() ==> s[x].0 != k,
    ensures
        total_of(s, k) == 0,
    decreases s.len(),
{
    if s.len() > 0 {
        let t = s.drop_last();
        assert forall|x: int| 0 <= x < t.len() implies t[x].0 != k by {
            assert(t[x] == s[x]);
        }
        lemma_total_of_absent(t, k);
    }
}

/// Merging pools adds up, resource by resource: the amount of every type in
/// the result is its amount in `acc` plus all that `s` holds of it, so
/// nothing of either pool is lost.
pub proof fn lemma_merge_pools_amounts(acc: Seq<(ResourceType, u64)>, s: Seq<(ResourceType, u64)>, k: ResourceType)
    requires
        merge_pools_ok(acc, s),
    ensures
        amount_of(merge_pools(acc, s), k) == amount_of(acc, k) + total_of(s, k),
    decreases s.len(),
{
    if s.len() > 0 {
        let prev = merge_pools(acc, s.drop_last());
        lemma_merge_pools_amounts(acc, s.drop_last(), k);
        let e = s.last();
        lemma_insert_resource_amount(prev, e.0, (amount_of(prev, e.0) + e.1) as u64, k);
    }
}

/// No addition of a merge of pools overflows.
pub open spec fn merge_pools_ok(acc: Seq<(ResourceType, u64)>, s: Seq<(ResourceType, u64)>) -> bool
    decreases s.len(),
{
    s.len() == 0 || (merge_pools_ok(acc, s.drop_last())
        && amount_of(merge_pools(acc, s.drop_last()), s.last().0) + s.last().1 <= u64::MAX)
}

proof fn lemma_merge_pools_ok_prefix(acc: Seq<(ResourceType, u64)>, s: Seq<(ResourceType, u64)>, n: int)
    requires
        0 <= n <= s.len(),
        merge_pools_ok(acc, s),
    ensures
        merge_pools_ok(acc, s.take(n)),
    decreases s.len(),
{
    if n < s.len() {
        assert(s.drop_last().take(n) =~= s.take(n));
        lemma_merge_pools_ok_prefix(acc, s.drop_last(), n);
    } else {
        assert(s.take(n) =~= s);
    }
}

/// `m` is `p` after absorbing `s` at `tick`: members and resources joined,
/// legitimacy summed in eight bits (wrapping past 255), halved, less 10
/// (floored at zero), factionalism averaged plus
/// 20 (at most 100), and inequality recomputed.
pub open spec fn is_merged_actor(m: CollectiveActor, p: CollectiveActor, s: CollectiveActor, tick: u64) -> bool {
    &&& m.members@ == merge_members(p.members@, s.members@, tick)
    &&& m.pooled_resources@ == merge_pools(p.pooled_resources@, s.pooled_resources@)
    &&& m == (CollectiveActor {
        members: m.members,
        pooled_resources: m.pooled_resources,
        legitimacy: sat_sub_u8((((p.legitimacy + s.legitimacy) as u8) / 2) as int, 10),
        factionalism: min_int((p.factionalism + s.factionalism) / 2 + 20, 100) as u8,
        internal_inequality: spec_inequality(m.members@),
        ..p
    })
}

/// A merged collective is the primary under its own identity: same id, type,
/// constitution, lifecycle state and territory. Its factionalism is the two
/// averaged plus 20, at most 100, so it never falls below 20; where the two
/// legitimacies sum to at most 255 its legitimacy is their mean less 10, never
/// below zero.
pub proof fn lemma_merged_actor_laws(m: CollectiveActor, p: CollectiveActor, s: CollectiveActor, tick: u64)
    requires
        is_merged_actor(m, p, s, tick),
    ensures
        m.id == p.id && m.collective_type == p.collective_type && m.constitution == p.constitution,
        m.lifecycle_state == p.lifecycle_state && m.formed_tick == p.formed_tick,
        m.factionalism == min_int((p.factionalism + s.factionalism) / 2 + 20, 100),
        20 <= m.factionalism <= 100 || p.factionalism + s.factionalism > 255,
        p.legitimacy + s.legitimacy <= 255 ==> m.legitimacy == max_int((p.legitimacy + s.legitimacy) / 2 - 10, 0),
        m.successful_decisions == p.successful_decisions && m.failed_decisions == p.failed_decisions,
{
}

/// Where both collectives are found, their factionalism sums in `u8` and
/// no resource total overflows.
pub open spec fn merge_collectives_ok(s: Seq<RegistryEntry>, primary_id: CollectiveId, secondary_id: CollectiveId) -> bool {
    let si = find_collective(s, secondary_id);
    si >= 0 ==> {
        let rest = without_key(s, secondary_id);
        let pi = find_collective(rest, primary_id);
        pi >= 0 ==> {
            &&& rest[pi].1.factionalism + s[si].1.factionalism <= 255
            &&& merge_pools_ok(rest[pi].1.pooled_resources@, s[si].1.pooled_resources@)
        }
    }
}

impl CollectiveRegistry {
    /// Merges the collective `secondary_id` into `primary_id`. The secondary
    /// is removed first; if the primary is then missing, nothing more happens
    /// and `None` is returned. Either way nothing is left under `secondary_id`.
    pub fn merge_collectives(&mut self, primary_id: CollectiveId, secondary_id: CollectiveId, tick: u64) -> (r: Option<CollectiveId>)
        requires
            merge_collectives_ok(old(self)@, primary_id, secondary_id),
        ensures
            final(self).next_collective_id() == old(self).next_collective_id(),
            find_collective(final(self)@, secondary_id) < 0,
            ({
                let si = find_collective(old(self)@, secondary_id);
                &&& si < 0 ==> r is None && final(self)@ == old(self)@
                &&& si >= 0 ==> {
                    let rest = without_key(old(self)@, secondary_id);
                    let pi = find_collective(rest, primary_id);
                    &&& pi < 0 ==> r is None && final(self)@ == rest
                    &&& pi >= 0 ==> {
                        &&& r == Some(primary_id)
                        &&& final(self)@ == rest.update(pi, (primary_id, final(self)@[pi].1))
                        &&& is_merged_actor(final(self)@[pi].1, rest[pi].1, old(self)@[si].1, tick)
                        &&& members_wf(rest[pi].1.members@) ==> forall|a: AgentId| #[trigger] lookup_member(
                            final(self)@[pi].1.members@,
                            a,
                        ) == (if lookup_member(rest[pi].1.members@, a) is Some {
                            lookup_member(rest[pi].1.members@, a)
                        } else if lookup_member(old(self)@[si].1.members@, a) is Some {
                            Some(Membership { joined_tick: tick, ..lookup_member(old(self)@[si].1.members@, a)->Some_0 })
                        } else {
                            None
                        })
                        &&& forall|k: ResourceType| #[trigger] amount_of(final(self)@[pi].1.pooled_resources@, k)
                            == amount_of(rest[pi].1.pooled_resources@, k) + total_of(old(self)@[si].1.pooled_resources@, k)
                        &&& pool_keys_unique(old(self)@[si].1.pooled_resources@) ==> forall|k: ResourceType|
                            #[trigger] amount_of(final(self)@[pi].1.pooled_resources@, k)
                            == amount_of(rest[pi].1.pooled_resources@, k) + amount_of(old(self)@[si].1.pooled_resources@, k)
                    }
                }
            }),
    {
        let ghost s0 = self@;
        proof {
            lemma_without_key_absent(s0, secondary_id);
        }
        let secondary = match self.remove(secondary_id) {
            Some(c) => c,
            None => return None,
        };
        let pi = match self.index_of(primary_id) {
            Some(i) => i,
            None => return None,
        };
        let ghost rest = self@;
        proof {
            lemma_find_collective(rest, primary_id);
        }
        let (key, mut primary) = self.collectives.remove(pi);
        let ghost p0 = primary;
        let ghost sm = secondary.members@;
        let ghost sp = secondary.pooled_resources@;
        let n = secondary.members.len();
        let mut i: usize = 0;
        while i < n
            invariant
                n == sm.len(),
                sm == secondary.members@,
                0 <= i <= n,
                primary.members@ == merge_members(p0.members@, sm.take(i as int), tick),
                primary == (CollectiveActor { members: primary.members, ..p0 }),
            decreases n - i,
        {
            proof {
                assert(sm.take(i + 1).drop_last() =~= sm.take(i as int));
            }
            let e = *secondary.members.entry_at(i);
            if !primary.is_member(e.0) {
                let mut m = e.1;
                m.joined_tick = tick;
                primary.members.insert(e.0, m);
            }
            i = i + 1;
        }
        proof {
            assert(sm.take(n as int) =~= sm);
            if members_wf(p0.members@) {
                assert forall|a: AgentId| #[trigger] lookup_member(primary.members@, a) == (if lookup_member(
                    p0.members@,
                    a,
                ) is Some {
                    lookup_member(p0.members@, a)
                } else if lookup_member(sm, a) is Some {
                    Some(Membership { joined_tick: tick, ..lookup_member(sm, a)->Some_0 })
                } else {
                    None
                }) by {
                    lemma_merge_members_laws(p0.members@, sm, tick, a);
                }
            }
        }
        let ghost p1 = primary;
        let np = secondary.pooled_resources.len();
        let mut j: usize = 0;
        while j < np
            invariant
                np == sp.len(),
                sp == secondary.pooled_resources@,
                merge_pools_ok(p0.pooled_resources@, sp),
                0 <= j <= np,
                primary.pooled_resources@ == merge_pools(p0.pooled_resources@, sp.take(j as int)),
                primary == (CollectiveActor { pooled_resources: primary.pooled_resources, ..p1 }),
            decreases np - j,
        {
            proof {
                assert(sp.take(j + 1).drop_last() =~= sp.take(j as int));
                lemma_merge_pools_ok_prefix(p0.pooled_resources@, sp, j + 1);
            }
            let e = secondary.pooled_resources.entry_at(j);
            let cur: u64 = match primary.pooled_resources.get(&e.0) {
                Some(v) => *v,
                None => 0,
            };
            primary.pooled_resources.insert(e.0, cur + e.1);
            j = j + 1;
        }
        proof {
            assert(sp.take(np as int) =~= sp);
            assert forall|k: ResourceType| #[trigger] amount_of(primary.pooled_resources@, k)
                == amount_of(p0.pooled_resources@, k) + total_of(sp, k) by {
                lemma_merge_pools_amounts(p0.pooled_resources@, sp, k);
            }
            if pool_keys_unique(sp) {
                assert forall|k: ResourceType| #[trigger] total_of(sp, k) == amount_of(sp, k) by {
                    lemma_total_of_unique(sp, k);
                }
            }
        }
        primary.legitimacy = ((primary.legitimacy as u16 + secondary.legitimacy as u16) as u8 / 2).saturating_sub(10);
        let f: u8 = (primary.factionalism + secondary.factionalism) / 2;
        primary.factionalism = if f + 20 > 100 { 100 } else { f + 20 };
        primary.update_internal_inequality();
        self.collectives.insert(pi, (key, primary));
        proof {
            assert(self@ =~= rest.update(pi as int, (primary_id, primary)));
            lemma_find_collective(self@, secondary_id);
            assert forall|j: int| 0 <= j < self@.len() implies self@[j].0 != secondary_id by {
                if j != pi {
                    assert(self@[j] == rest[j]);
                }
            }
            lemma_find_collective(self@, secondary_id);
        }
        Some(primary_id)
    }
}

/// Every agent of `sub` is a member in `t`.
pub open spec fn all_members_of(sub: Seq<AgentId>, t: Seq<MemberEntry>) -> bool {
    forall|i: int| 0 <= i < sub.len() ==> lookup_member(t, #[trigger] sub[i]) is Some
}

/// The split of a member table: for each agent of `sub` in order, its entry
/// (if still there) moves from the first table to the second.
pub open spec fn split_tables(t: Seq<MemberEntry>, sub: Seq<AgentId>) -> (Seq<MemberEntry>, Seq<MemberEntry>)
    decreases sub.len(),
{
    if sub.len() == 0 {
        (t, Seq::empty())
    } else {
        let prev = split_tables(t, sub.drop_last());
        let a = sub.last();
        match lookup_member(prev.0, a) {
            Some(m) => (remove_member_entry(prev.0, a), insert_member(prev.1, a, m)),
            None => prev,
        }
    }
}

/// The share `amount * k / n` (rounded down) that leaves with a split.
pub open spec fn split_share(amount: u64, k: nat, n: nat) -> u64 {
    (amount as nat * k / n) as u64
}

/// The pool of the new collective: each resource's share, in order.
pub open spec fn split_pool(p: Seq<(ResourceType, u64)>, k: nat, n: nat) -> Seq<(ResourceType, u64)>
    decreases p.len(),
{
    if p.len() == 0 {
        Seq::empty()
    } else {
        insert_resource(split_pool(p.drop_last(), k, n), p.last().0, split_share(p.last().1, k, n))
    }
}

/// The pool left behind: each amount less its share.
pub open spec fn reduced_pool(p: Seq<(ResourceType, u64)>, k: nat, n: nat) -> Seq<(ResourceType, u64)> {
    Seq::new(p.len(), |i: int| (p[i].0, (p[i].1 - split_share(p[i].1, k, n)) as u64))
}

/// Whether a split of `c` by `sub` is turned down.
pub open spec fn split_refused(c: CollectiveActor, sub: Seq<AgentId>) -> bool {
    !all_members_of(sub, c.members@) || sub.len() < 3 || c.members@.len() - sub.len() < 3
}

/// An id is left to hand out, and a split that passes the membership test
/// does not list more agents than there are members.
pub open spec fn split_collective_ok(s: Seq<RegistryEntry>, next_id: u64, original_id: CollectiveId, sub: Seq<AgentId>) -> bool {
    let oi = find_collective(s, original_id);
    &&& next_id < u64::MAX
    &&& (oi >= 0 && all_members_of(sub, s[oi].1.members@) && sub.len() >= 3) ==> sub.len() <= s[oi].1.members@.len()
}

/// `o` is `orig` after the members of `sub` left with their share of each
/// resource, having lost 20 legitimacy; `c` is the new collective `id`
/// made of them at `tick`, with the same reduced legitimacy.
pub open spec fn is_split_result(
    o: CollectiveActor,
    c: CollectiveActor,
    orig: CollectiveActor,
    sub: Seq<AgentId>,
    id: CollectiveId,
    tick: u64,
) -> bool {
    let tables = split_tables(orig.members@, sub);
    let k = sub.len();
    let n = k + tables.0.len();
    let legitimacy = sat_sub_u8(orig.legitimacy as int, 20);
    &&& o.members@ == tables.0
    &&& o.pooled_resources@ == reduced_pool(orig.pooled_resources@, k, n)
    &&& o == (CollectiveActor {
        members: o.members,
        pooled_resources: o.pooled_resources,
        legitimacy,
        internal_inequality: spec_inequality(o.members@),
        ..orig
    })
    &&& fresh_fields(c, id, orig.collective_type, tick, orig.constitution)
    &&& c.members@ == tables.1
    &&& c.pooled_resources@ == split_pool(orig.pooled_resources@, k, n)
    &&& c.legitimacy == legitimacy
}

impl CollectiveRegistry {
    /// Splits the agents of `member_subset` off `original_id` into a new
    /// collective, which is stored under the next id. Refused (`None`, nothing
    /// changed) when the collective is missing, an agent is not a member, or
    /// either side would keep fewer than three.
    pub fn split_collective(&mut self, original_id: CollectiveId, member_subset: Vec<AgentId>, tick: u64) -> (r: Option<CollectiveId>)
        requires
            split_collective_ok(old(self)@, old(self).next_collective_id(), original_id, member_subset@),
        ensures
            ({
                let oi = find_collective(old(self)@, original_id);
                let new_id = CollectiveId(old(self).next_collective_id());
                &&& (oi < 0 || split_refused(old(self)@[oi].1, member_subset@)) ==> {
                    &&& r is None
                    &&& final(self)@ == old(self)@
                    &&& final(self).next_collective_id() == old(self).next_collective_id()
                }
                &&& !(oi < 0 || split_refused(old(self)@[oi].1, member_subset@)) ==> {
                    &&& r == Some(new_id)
                    &&& final(self).next_collective_id() == old(self).next_collective_id() + 1
                    &&& exists|o: CollectiveActor, c: CollectiveActor| {
                        &&& final(self)@ == insert_collective(old(self)@.update(oi, (original_id, o)), new_id, c)
                        &&& is_split_result(o, c, old(self)@[oi].1, member_subset@, new_id, tick)
                    }
                    &&& find_collective(old(self)@, new_id) < 0 ==> {
                        &&& final(self)@.len() == old(self)@.len() + 1
                        &&& final(self)@ == old(self)@.update(oi, (original_id, final(self)@[oi].1)).push(
                            (new_id, final(self)@.last().1),
                        )
                        &&& is_split_result(final(self)@[oi].1, final(self)@.last().1, old(self)@[oi].1, member_subset@, new_id, tick)
                    }
                }
                &&& registry_wf(old(self)@, old(self).next_collective_id())
                    ==> registry_wf(final(self)@, final(self).next_collective_id())
            }),
    {
        let oi = match self.index_of(original_id) {
            Some(i) => i,
            None => return None,
        };
        let ghost s0 = self@;
        let ghost sub = member_subset@;
        let k = member_subset.len();
        let mut q: usize = 0;
        while q < k
            invariant
                k == sub.len(),
                sub == member_subset@,
                s0 == self@,
                self.next_id == old(self).next_id,
                oi == find_collective(s0, original_id),
                oi < self@.len(),
                0 <= q <= k,
                forall|j: int| 0 <= j < q ==> lookup_member(self@[oi as int].1.members@, #[trigger] sub[j]) is Some,
            decreases k - q,
        {
            if !self.collectives[oi].1.is_member(member_subset[q]) {
                proof {
                    assert(lookup_member(s0[oi as int].1.members@, sub[q as int]) is None);
                    assert(!all_members_of(sub, s0[oi as int].1.members@));
                }
                return None;
            }
            q = q + 1;
        }
        let count = self.collectives[oi].1.member_count();
        if k < 3 || count - k < 3 {
            return None;
        }
        let new_id = CollectiveId(self.next_id);
        self.next_id = self.next_id + 1;
        proof {
            lemma_find_collective(s0, original_id);
        }
        let (okey, mut original) = self.collectives.remove(oi);
        let ghost o0 = original;
        let mut new_collective = CollectiveActor::new(new_id, original.collective_type, tick, original.constitution);
        let ghost c0 = new_collective;
        let mut j: usize = 0;
        while j < k
            invariant
                k == sub.len(),
                sub == member_subset@,
                0 <= j <= k,
                original.members@ == split_tables(o0.members@, sub.take(j as int)).0,
                new_collective.members@ == split_tables(o0.members@, sub.take(j as int)).1,
                original == (CollectiveActor { members: original.members, ..o0 }),
                new_collective == (CollectiveActor { members: new_collective.members, ..c0 }),
            decreases k - j,
        {
            proof {
                assert(sub.take(j + 1).drop_last() =~= sub.take(j as int));
            }
            let a = member_subset[j];
            match original.members.remove(&a) {
                Some(m) => {
                    new_collective.members.insert(a, m);
                },
                None => {},
            }
            j = j + 1;
        }
        proof {
            assert(sub.take(k as int) =~= sub);
        }
        let kk = k as u128;
        let nn = kk + original.members.len() as u128;
        let ghost p0 = o0.pooled_resources@;
        let np = original.pooled_resources.len();
        let mut i: usize = 0;
        let ghost c1 = new_collective;
        while i < np
            invariant
                np == p0.len(),
                p0 == original.pooled_resources@,
                kk == k,
                nn == kk + original.members@.len(),
                kk >= 3,
                0 <= i <= np,
                new_collective.pooled_resources@ == split_pool(p0.take(i as int), k as nat, nn as nat),
                new_collective == (CollectiveActor { pooled_resources: new_collective.pooled_resources, ..c1 }),
            decreases np - i,
        {
            proof {
                assert(p0.take(i + 1).drop_last() =~= p0.take(i as int));
            }
            let e = original.pooled_resources.entry_at(i);
            let amount = e.1 as u128;
            assert(amount * kk < 0x1_0000_0000_0000_0000_0000_0000_0000_0000) by (nonlinear_arith)
                requires
                    amount <= u64::MAX,
                    kk <= u64::MAX,
            ;
            assert((amount as int) * (kk as int) / (nn as int) <= amount) by (nonlinear_arith)
                requires
                    kk <= nn,
                    nn > 0,
            ;
            let share = (amount * kk / nn) as u64;
            new_collective.pooled_resources.insert(e.0, share);
            i = i + 1;
        }
        proof {
            assert(p0.take(np as int) =~= p0);
        }
        let ghost o1 = original;
        let mut i2: usize = 0;
        while i2 < np
            invariant
                np == p0.len(),
                kk == k,
                kk >= 3,
                nn == kk + o1.members@.len(),
                0 <= i2 <= np,
                original.pooled_resources@.len() == np,
                forall|x: int| 0 <= x < i2 ==> #[trigger] original.pooled_resources@[x] == reduced_pool(p0, k as nat, nn as nat)[x],
                forall|x: int| i2 <= x < np ==> #[trigger] original.pooled_resources@[x] == p0[x],
                original == (CollectiveActor { pooled_resources: original.pooled_resources, ..o1 }),
            decreases np - i2,
        {
            let e = original.pooled_resources.entry_at(i2);
            let amount = e.1 as u128;
            assert(amount * kk < 0x1_0000_0000_0000_0000_0000_0000_0000_0000) by (nonlinear_arith)
                requires
                    amount <= u64::MAX,
                    kk <= u64::MAX,
            ;
            assert((amount as int) * (kk as int) / (nn as int) <= amount) by (nonlinear_arith)
                requires
                    kk <= nn,
                    nn > 0,
            ;
            let share = (amount * kk / nn) as u64;
            original.pooled_resources.entries.set(i2, (e.0, e.1 - share));
            i2 = i2 + 1;
        }
        proof {
            assert(original.pooled_resources@ =~= reduced_pool(p0, k as nat, nn as nat));
        }
        original.legitimacy = original.legitimacy.saturating_sub(20);
        new_collective.legitimacy = original.legitimacy;
        original.update_internal_inequality();
        self.collectives.insert(oi, (okey, original));
        let ghost mid = self@;
        proof {
            assert(mid =~= s0.update(oi as int, (original_id, original)));
            lemma_find_collective(mid, new_id);
            lemma_find_collective(s0, new_id);
            assert forall|x: int| 0 <= x < mid.len() implies mid[x].0 == s0[x].0 by {}
            if find_collective(s0, new_id) < 0 {
                assert forall|x: int| 0 <= x < mid.len() implies mid[x].0 != new_id by {
                    assert(mid[x].0 == s0[x].0);
                }
                assert(find_collective(mid, new_id) < 0);
            }
        }
        self.store(new_id, new_collective);
        proof {
            assert(is_split_result(original, new_collective, s0[oi as int].1, sub, new_id, tick));
            if find_collective(s0, new_id) < 0 {
                assert(self@ =~= mid.push((new_id, new_collective)));
            }
            if registry_wf(s0, old(self).next_id) {
                assert(s0[oi as int].0 == original_id);
                lemma_same_ids_keep_wf(s0, mid, old(self).next_id);
                lemma_create_keeps_wf(mid, old(self).next_id, new_id, new_collective);
            }
        }
        Some(new_id)
    }
}

/// Replacing entries by others with the same keys keeps the registry well formed.
pub proof fn lemma_same_ids_keep_wf(s: Seq<RegistryEntry>, t: Seq<RegistryEntry>, next_id: u64)
    requires
        registry_wf(s, next_id),
        t.len() == s.len(),
        forall|i: int| 0 <= i < s.len() ==> #[trigger] t[i].0 == s[i].0,
    ensures
        registry_wf(t, next_id),
{
    assert forall|i: int, j: int| 0 <= i < j < t.len() implies (#[trigger] t[i]).0 != (#[trigger] t[j]).0 by {
        assert(t[i].0 == s[i].0 && t[j].0 == s[j].0);
    }
    assert forall|i: int| 0 <= i < t.len() implies (#[trigger] t[i]).0.0 < next_id by {
        assert(t[i].0 == s[i].0);
    }
}

/// Storing a collective under the next id appends it, and keeps keys
/// distinct and below the (advanced) next id.
pub proof fn lemma_create_keeps_wf(s: Seq<RegistryEntry>, next_id: u64, id: CollectiveId, c: CollectiveActor)
    requires
        registry_wf(s, next_id),
        next_id < u64::MAX,
        id == CollectiveId(next_id),
    ensures
        registry_wf(insert_collective(s, id, c), (next_id + 1) as u64),
        insert_collective(s, id, c) == s.push((id, c)),
{
    lemma_find_collective(s, id);
    if find_collective(s, id) >= 0 {
        assert(s[find_collective(s, id)].0.0 < next_id);
    }
    let t = s.push((id, c));
    assert forall|i: int, j: int| 0 <= i < j < t.len() implies (#[trigger] t[i]).0 != (#[trigger] t[j]).0 by {
        assert(t[i] == s[i]);
        if j < s.len() {
            assert(t[j] == s[j]);
        }
    }
    assert forall|i: int| 0 <= i < t.len() implies (#[trigger] t[i]).0.0 < next_id + 1 by {
        if i < s.len() {
            assert(t[i] == s[i]);
        }
    }
}

/// Taking the entries under `id` out keeps the registry well formed.
pub proof fn lemma_remove_keeps_wf(s: Seq<RegistryEntry>, next_id: u64, id: CollectiveId)
    requires
        registry_wf(s, next_id),
    ensures
        registry_wf(without_key(s, id), next_id),
    decreases s.len(),
{
    if s.len() > 0 {
        let t = s.drop_last();
        assert forall|i: int, j: int| 0 <= i < j < t.len() implies (#[trigger] t[i]).0 != (#[trigger] t[j]).0 by {
            assert(t[i] == s[i] && t[j] == s[j]);
        }
        assert forall|i: int| 0 <= i < t.len() implies (#[trigger] t[i]).0.0 < next_id by {
            assert(t[i] == s[i]);
        }
        lemma_remove_keeps_wf(t, next_id, id);
        lemma_without_key_subset(t, id);
        let w = without_key(t, id);
        if s.last().0 != id {
            let u = w.push(s.last());
            assert forall|i: int, j: int| 0 <= i < j < u.len() implies (#[trigger] u[i]).0 != (#[trigger] u[j]).0 by {
                if j == w.len() {
                    let k = choose|k: int| 0 <= k < t.len() && t[k] == w[i];
                    assert(t[k] == s[k]);
                    assert(s.last() == s[s.len() - 1]);
                } else {
                    assert(u[i] == w[i] && u[j] == w[j]);
                }
            }
            assert forall|i: int| 0 <= i < u.len() implies (#[trigger] u[i]).0.0 < next_id by {
                if i < w.len() {
                    assert(u[i] == w[i]);
                } else {
                    assert(s.last() == s[s.len() - 1]);
                }
            }
        }
    }
}

/// Every entry left by `without_key` is an entry of the original list.
pub proof fn lemma_without_key_subset(s: Seq<RegistryEntry>, id: CollectiveId)
    ensures
        forall|i: int| 0 <= i < without_key(s, id).len() ==> exists|k: int| 0 <= k < s.len() && s[k] == #[trigger] without_key(s, id)[i],
    decreases s.len(),
{
    if s.len() > 0 {
        let t = s.drop_last();
        lemma_without_key_subset(t, id);
        let w = without_key(t, id);
        assert forall|i: int| 0 <= i < without_key(s, id).len() implies exists|k: int| 0 <= k < s.len() && s[k] == #[trigger] without_key(s, id)[i] by {
            if i < w.len() {
                assert(without_key(s, id)[i] == w[i]);
                let k = choose|k: int| 0 <= k < t.len() && t[k] == w[i];
                assert(s[k] == t[k]);
            } else {
                assert(s[s.len() - 1] == without_key(s, id)[i]);
            }
        }
    }
}

/// A merge keeps the registry well formed: the secondary is gone and the
/// merged collective stays under the primary's key.
pub proof fn lemma_merge_keeps_wf(
    s: Seq<RegistryEntry>,
    next_id: u64,
    primary_id: CollectiveId,
    secondary_id: CollectiveId,
    merged: CollectiveActor,
)
    requires
        registry_wf(s, next_id),
        find_collective(without_key(s, secondary_id), primary_id) >= 0,
    ensures
        ({
            let rest = without_key(s, secondary_id);
            registry_wf(rest.update(find_collective(rest, primary_id), (primary_id, merged)), next_id)
        }),
{
    lemma_remove_keeps_wf(s, next_id, secondary_id);
    let rest = without_key(s, secondary_id);
    let pi = find_collective(rest, primary_id);
    lemma_find_collective(rest, primary_id);
    lemma_same_ids_keep_wf(rest, rest.update(pi, (primary_id, merged)), next_id);
}

/// A lifecycle step keeps each entry's key, so it keeps the registry well formed.
pub proof fn lemma_lifecycle_keeps_wf(s: Seq<RegistryEntry>, t: Seq<RegistryEntry>, next_id: u64, tick: u64)
    requires
        registry_wf(s, next_id),
        t.len() == s.len(),
        forall|i: int| 0 <= i < s.len() ==> #[trigger] t[i] == (s[i].0, lifecycle_step(s[i].1, tick)),
    ensures
        registry_wf(t, next_id),
{
    assert forall|i: int| 0 <= i < s.len() implies #[trigger] t[i].0 == s[i].0 by {
        assert(t[i] == (s[i].0, lifecycle_step(s[i].1, tick)));
    }
    lemma_same_ids_keep_wf(s, t, next_id);
}

} // verus!
