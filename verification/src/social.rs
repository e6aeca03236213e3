use vstd::prelude::*;

use crate::agents::{AgentId, max_int, min_int, sat_add_u8, sat_sub_u8};
use crate::sim_core::{DeterministicRng, bounded_state, bounded_value};

verus! {

/// Division that rounds toward zero, as Rust's `/` does on signed integers.
pub open spec fn trunc_div(a: int, b: int) -> int
    recommends
        b > 0,
{
    if a >= 0 {
        a / b
    } else {
        -((-a) / b)
    }
}

/// `v` lowered by `d`, floored at zero.
fn sat_sub_ticks(v: u8, d: u64) -> (r: u8)
    ensures
        r == sat_sub_u8(v as int, d as int),
{
    if d >= v as u64 {
        0
    } else {
        v - d as u8
    }
}

/// A relation between two agents: trust, grievance and interaction history.
#[derive(Debug, Clone, Copy, PartialEq, Eq, Structural)]
pub struct SocialTie {
    /// -100 to +100 while the tie is kept by the network's own operations.
    pub trust: i8,
    /// 0 to 100 while the tie is kept by the network's own operations.
    pub grievance: u8,
    pub interaction_count: u32,
    pub last_interaction_tick: u64,
    pub cooperation_success: u32,
    pub conflict_count: u32,
}

/// Trust and grievance within their documented ranges.
pub open spec fn tie_bounded(t: SocialTie) -> bool {
    -100 <= t.trust <= 100 && t.grievance <= 100
}

pub open spec fn spec_new_tie(tick: u64) -> SocialTie {
    SocialTie {
        trust: 0,
        grievance: 0,
        interaction_count: 0,
        last_interaction_tick: tick,
        cooperation_success: 0,
        conflict_count: 0,
    }
}

/// The trust change an interaction of the given outcome causes: cooperation
/// raises trust with diminishing returns at high trust, conflict lowers it by
/// the severity scaled up with grievance; either way by at least one point.
pub open spec fn trust_change(t: SocialTie, outcome: i8) -> int {
    if outcome > 0 {
        let max_increase = 10 - min_int(trunc_div(t.trust as int, 10), 10);
        max_int((outcome * max_increase) / 10, 1)
    } else {
        let severity = -(outcome as int);
        let penalty = (severity * (100 + t.grievance)) / 100;
        -max_int(penalty, 1)
    }
}

/// Whether the interaction counters of `update_trust` stay below `u32::MAX`.
pub open spec fn update_trust_ok(t: SocialTie, outcome: i8) -> bool {
    &&& t.interaction_count < u32::MAX
    &&& outcome < 0 ==> t.conflict_count < u32::MAX
    &&& outcome >= 0 ==> t.cooperation_success < u32::MAX
}

/// `v` clamped to the trust range [-100, 100].
pub open spec fn clamp_trust(v: int) -> i8 {
    if v < -100 {
        -100i8
    } else if v > 100 {
        100i8
    } else {
        v as i8
    }
}

pub open spec fn spec_update_trust(t: SocialTie, outcome: i8, tick: u64) -> SocialTie {
    SocialTie {
        interaction_count: (t.interaction_count + 1) as u32,
        last_interaction_tick: tick,
        trust: clamp_trust(t.trust + trust_change(t, outcome)),
        grievance: if outcome < 0 {
            min_int(t.grievance - outcome, 100) as u8
        } else {
            t.grievance
        },
        conflict_count: if outcome < 0 { (t.conflict_count + 1) as u32 } else { t.conflict_count },
        cooperation_success: if outcome < 0 {
            t.cooperation_success
        } else {
            (t.cooperation_success + 1) as u32
        },
    }
}

/// What one interaction does to a tie: it counts as one more interaction at
/// `tick`; a negative outcome adds its size to grievance (capped at 100) and
/// counts as a conflict; any other outcome leaves grievance alone and counts
/// as a cooperation. Trust always ends within [-100, 100]; from within that
/// range a positive outcome raises it and any other lowers it, unless it is
/// already at the bound it moves toward. A positive outcome adds a tenth of
/// the outcome times (10 less a tenth of trust, at most 10), at least 1; any
/// other takes off its size scaled up by grievance percent, at least 1.
pub proof fn lemma_update_trust_laws(t: SocialTie, outcome: i8, tick: u64)
    requires
        update_trust_ok(t, outcome),
    ensures
        ({
            let u = spec_update_trust(t, outcome, tick);
            &&& u.interaction_count == t.interaction_count + 1
            &&& u.last_interaction_tick == tick
            &&& -100 <= u.trust <= 100
            &&& outcome < 0 ==> {
                &&& u.grievance == min_int(t.grievance + (-outcome), 100)
                &&& u.conflict_count == t.conflict_count + 1
                &&& u.cooperation_success == t.cooperation_success
            }
            &&& outcome >= 0 ==> {
                &&& u.grievance == t.grievance
                &&& u.cooperation_success == t.cooperation_success + 1
                &&& u.conflict_count == t.conflict_count
            }
            &&& -100 <= t.trust <= 100 ==> {
                &&& outcome > 0 ==> (u.trust > t.trust || u.trust == 100)
                &&& outcome <= 0 ==> (u.trust < t.trust || u.trust == -100)
            }
            &&& outcome > 0 ==> {
                let tenth = if t.trust >= 0 { t.trust / 10 } else { -((-t.trust) / 10) };
                let gain = max_int(outcome * (10 - min_int(tenth, 10)) / 10, 1);
                u.trust == min_int(max_int(t.trust + gain, -100), 100)
            }
            &&& outcome <= 0 ==> {
                let loss = max_int((-outcome) * (100 + t.grievance) / 100, 1);
                u.trust == min_int(max_int(t.trust - loss, -100), 100)
            }
        }),
{
}

/// Trust moves toward neutral by `ticks_passed / 100` without crossing it;
/// grievance falls by `ticks_passed / 200`, floored at zero.
pub open spec fn spec_decay(t: SocialTie, ticks_passed: u64) -> SocialTie {
    let d = ticks_passed as int / 100;
    SocialTie {
        trust: if t.trust > 0 {
            max_int(t.trust - d, 0) as i8
        } else if t.trust < 0 {
            min_int(t.trust + d, 0) as i8
        } else {
            t.trust
        },
        grievance: sat_sub_u8(t.grievance as int, ticks_passed as int / 200),
        ..t
    }
}

/// Forgetting moves trust toward neutral by a point per hundred ticks and
/// never past it, lowers grievance by a point per two hundred ticks down to
/// zero, and leaves the interaction history alone.
pub proof fn lemma_decay_laws(t: SocialTie, ticks_passed: u64)
    ensures
        ({
            let u = spec_decay(t, ticks_passed);
            &&& t.trust >= 0 ==> u.trust == max_int(t.trust - ticks_passed / 100, 0)
            &&& t.trust <= 0 ==> u.trust == min_int(t.trust + ticks_passed / 100, 0)
            &&& u.grievance == max_int(t.grievance - ticks_passed / 200, 0)
            &&& u.interaction_count == t.interaction_count
            &&& u.cooperation_success == t.cooperation_success
            &&& u.conflict_count == t.conflict_count
            &&& u.last_interaction_tick == t.last_interaction_tick
        }),
{
}

/// Tension a tie adds to its partition: lack of trust plus grievance, capped at 200.
pub open spec fn tie_tension(t: SocialTie) -> int {
    let abs_trust = if t.trust < 0 { -(t.trust as int) } else { t.trust as int };
    min_int((100 - abs_trust) + t.grievance, 200)
}

impl SocialTie {
    /// A neutral tie created at `tick`.
    pub fn new(tick: u64) -> (t: Self)
        ensures
            t == spec_new_tie(tick),
    {
        SocialTie {
            trust: 0,
            grievance: 0,
            interaction_count: 0,
            last_interaction_tick: tick,
            cooperation_success: 0,
            conflict_count: 0,
        }
    }

    /// Records one interaction; a positive outcome counts as cooperation, any
    /// other as conflict for trust, and a negative one adds grievance.
    pub fn update_trust(&mut self, outcome: i8, tick: u64)
        requires
            update_trust_ok(*old(self), outcome),
        ensures
            *final(self) == spec_update_trust(*old(self), outcome, tick),
            tie_bounded(*old(self)) ==> tie_bounded(*final(self)),
            -100 <= old(self).trust <= 100 ==> {
                &&& outcome > 0 ==> (final(self).trust > old(self).trust || final(self).trust == 100)
                &&& outcome <= 0 ==> (final(self).trust < old(self).trust || final(self).trust == -100)
            },
            outcome < 0 ==> final(self).grievance == min_int(old(self).grievance + (-outcome), 100)
                && final(self).conflict_count == old(self).conflict_count + 1,
            outcome >= 0 ==> final(self).grievance == old(self).grievance
                && final(self).cooperation_success == old(self).cooperation_success + 1,
            final(self).interaction_count == old(self).interaction_count + 1,
            final(self).last_interaction_tick == tick,
    {
        proof {
            lemma_update_trust_laws(*self, outcome, tick);
        }
        let ghost t0 = *self;
        self.interaction_count = self.interaction_count + 1;
        self.last_interaction_tick = tick;
        let change: i32 = if outcome > 0 {
            let tenth: i32 = self.trust as i32 / 10;
            let capped: i32 = if tenth <= 10 { tenth } else { 10 };
            let max_increase: i32 = 10 - capped;
            assert(0 <= max_increase <= 23);
            assert(0 <= outcome as i32 * max_increase <= 127 * 23) by (nonlinear_arith)
                requires
                    0 <= max_increase <= 23,
                    0 < outcome <= 127,
            ;
            let raw: i32 = outcome as i32 * max_increase / 10;
            if raw >= 1 { raw } else { 1 }
        } else {
            let severity: i32 = -(outcome as i32);
            assert(0 <= severity * (100 + self.grievance as i32) <= 128 * 355) by (nonlinear_arith)
                requires
                    0 <= severity <= 128,
                    0 <= self.grievance <= 255,
            ;
            let penalty: i32 = severity * (100 + self.grievance as i32) / 100;
            let at_least_one: i32 = if penalty >= 1 { penalty } else { 1 };
            -at_least_one
        };
        let sum: i32 = self.trust as i32 + change;
        self.trust = if sum < -100 {
            -100
        } else if sum > 100 {
            100
        } else {
            sum as i8
        };
        if outcome < 0 {
            let raised: u16 = self.grievance as u16 + (-(outcome as i16)) as u16;
            self.grievance = if raised <= 100 { raised as u8 } else { 100 };
            self.conflict_count = self.conflict_count + 1;
        } else {
            self.cooperation_success = self.cooperation_success + 1;
        }
        assert(change == trust_change(t0, outcome));
    }

    /// Forgetting: trust moves toward neutral by ticks / 100 without crossing
    /// it, and grievance falls by ticks / 200, floored at zero.
    pub fn decay(&mut self, ticks_passed: u64)
        ensures
            *final(self) == spec_decay(*old(self), ticks_passed),
            old(self).trust >= 0 ==> 0 <= final(self).trust <= old(self).trust,
            old(self).trust <= 0 ==> old(self).trust <= final(self).trust <= 0,
            final(self).grievance <= old(self).grievance,
    {
        let decay_amount: u64 = ticks_passed / 100;
        if self.trust > 0 {
            self.trust = if decay_amount >= self.trust as u64 {
                0
            } else {
                self.trust - decay_amount as i8
            };
        } else if self.trust < 0 {
            self.trust = if decay_amount >= (-(self.trust as i16)) as u64 {
                0
            } else {
                self.trust + decay_amount as i8
            };
        }
        self.grievance = sat_sub_ticks(self.grievance, ticks_passed / 200);
    }

    /// Cooperation succeeds when a draw below 100 exceeds 50 - trust * 40 / 100
    /// (the quotient rounded toward zero): 50 at neutral trust, 10 at full trust.
    pub fn will_cooperate(&self, rng: &mut DeterministicRng) -> (r: bool)
        ensures
            final(rng)@ == bounded_state(old(rng)@, 100),
            r == (bounded_value(old(rng)@, 100) > 50 - trunc_div(self.trust * 40, 100)),
    {
        let threshold: i64 = 50 - (self.trust as i64 * 40 / 100);
        let draw: u64 = rng.next_bounded(100);
        draw as i64 > threshold
    }

    /// Weighted conflict likelihood from grievance, lack of trust and scarcity.
    pub fn conflict_likelihood(&self, scarcity_stress: u8) -> (r: u8)
        requires
            -100 <= self.trust <= 100,
        ensures
            ({
                let abs_trust = if self.trust < 0 { -(self.trust as int) } else { self.trust as int };
                let trust_factor = sat_sub_u8(100 - abs_trust, 50) * 2;
                r == (self.grievance * 40 + trust_factor * 30 + scarcity_stress * 30) / 100
            }),
    {
        let abs_trust: u8 = if self.trust < 0 { (-self.trust) as u8 } else { self.trust as u8 };
        let trust_factor: u8 = (100 - abs_trust).saturating_sub(50) * 2;
        ((self.grievance as u16 * 40 + trust_factor as u16 * 30 + scarcity_stress as u16 * 30) / 100) as u8
    }
}

} // verus!

verus! {

/// Normalised key of the tie between two agents: the smaller id first.
pub open spec fn tie_key(a: AgentId, b: AgentId) -> (u64, u64) {
    if a.0 < b.0 {
        (a.0, b.0)
    } else {
        (b.0, a.0)
    }
}

pub type TieEntry = ((u64, u64), SocialTie);

/// Index of the first entry with key `k`, or -1 if there is none.
pub open spec fn find_tie(s: Seq<TieEntry>, k: (u64, u64)) -> int
    decreases s.len(),
{
    if s.len() == 0 {
        -1
    } else {
        let r = find_tie(s.drop_last(), k);
        if r >= 0 {
            r
        } else if s.last().0 == k {
            s.len() - 1
        } else {
            -1
        }
    }
}

pub open spec fn lookup_tie(s: Seq<TieEntry>, k: (u64, u64)) -> Option<SocialTie> {
    let i = find_tie(s, k);
    if i >= 0 {
        Some(s[i].1)
    } else {
        None
    }
}

/// The tie stored under `k`, or a fresh one created at `tick`.
pub open spec fn tie_or_new(s: Seq<TieEntry>, k: (u64, u64), tick: u64) -> SocialTie {
    match lookup_tie(s, k) {
        Some(t) => t,
        None => spec_new_tie(tick),
    }
}

/// `s` with the entry under `k` replaced by `t`, or `(k, t)` appended if there was none.
pub open spec fn upsert_tie(s: Seq<TieEntry>, k: (u64, u64), t: SocialTie) -> Seq<TieEntry> {
    let i = find_tie(s, k);
    if i >= 0 {
        s.update(i, (k, t))
    } else {
        s.push((k, t))
    }
}

/// Well-formed tie tables: normalised, pairwise distinct keys.
pub open spec fn ties_wf(s: Seq<TieEntry>) -> bool {
    &&& forall|i: int| 0 <= i < s.len() ==> (#[trigger] s[i]).0.0 <= s[i].0.1
    &&& forall|i: int, j: int| 0 <= i < j < s.len() ==> (#[trigger] s[i]).0 != (#[trigger] s[j]).0
}

/// Every tie's trust and grievance within range.
pub open spec fn ties_bounded(s: Seq<TieEntry>) -> bool {
    forall|i: int| 0 <= i < s.len() ==> tie_bounded(#[trigger] s[i].1)
}

pub proof fn lemma_find_tie(s: Seq<TieEntry>, k: (u64, u64))
    ensures
        -1 <= find_tie(s, k) < s.len(),
        find_tie(s, k) >= 0 ==> s[find_tie(s, k)].0 == k,
        find_tie(s, k) >= 0 ==> forall|j: int| 0 <= j < find_tie(s, k) ==> s[j].0 != k,
        find_tie(s, k) < 0 ==> forall|j: int| 0 <= j < s.len() ==> s[j].0 != k,
    decreases s.len(),
{
    if s.len() > 0 {
        let t = s.drop_last();
        lemma_find_tie(t, k);
        assert(forall|j: int| 0 <= j < t.len() ==> t[j] == s[j]);
    }
}

pub proof fn lemma_find_tie_unique(s: Seq<TieEntry>, k: (u64, u64), i: int)
    requires
        ties_wf(s),
        0 <= i < s.len(),
        s[i].0 == k,
    ensures
        find_tie(s, k) == i,
{
    lemma_find_tie(s, k);
}

/// Graph of social ties; each unordered pair of agents has at most one tie.
#[derive(Debug, Clone)]
pub struct SocialNetwork {
    ties: Vec<TieEntry>,
}

impl View for SocialNetwork {
    type V = Seq<TieEntry>;

    closed spec fn view(&self) -> Seq<TieEntry> {
        self.ties@
    }
}

impl SocialNetwork {
    pub open spec fn wf(&self) -> bool {
        ties_wf(self@)
    }

    pub fn new() -> (n: Self)
        ensures
            n@ == Seq::<TieEntry>::empty(),
            n.wf(),
    {
        SocialNetwork { ties: Vec::new() }
    }

    fn get_tie_key(a: AgentId, b: AgentId) -> (k: (u64, u64))
        ensures
            k == tie_key(a, b),
    {
        if a.0 < b.0 {
            (a.0, b.0)
        } else {
            (b.0, a.0)
        }
    }

    fn find_index(&self, k: (u64, u64)) -> (r: Option<usize>)
        ensures
            match r {
                Some(i) => i < self@.len() && find_tie(self@, k) == i as int,
                None => find_tie(self@, k) == -1,
            },
    {
        proof { lemma_find_tie(self@, k); }
        let mut i: usize = 0;
        while i < self.ties.len()
            invariant
                0 <= i <= self.ties.len(),
                forall|j: int| 0 <= j < i ==> self@[j].0 != k,
            decreases self.ties.len() - i,
        {
            if self.ties[i].0.0 == k.0 && self.ties[i].0.1 == k.1 {
                proof {
                    assert(self@[i as int].0 == k);
                    lemma_find_tie(self@, k);
                }
                return Some(i);
            }
            i = i + 1;
        }
        None
    }

    /// The tie between two agents, if they have interacted.
    pub fn get_tie(&self, a: AgentId, b: AgentId) -> (r: Option<&SocialTie>)
        ensures
            match r {
                Some(t) => lookup_tie(self@, tie_key(a, b)) == Some(*t),
                None => lookup_tie(self@, tie_key(a, b)) is None,
            },
    {
        let k = Self::get_tie_key(a, b);
        match self.find_index(k) {
            Some(i) => Some(&self.ties[i].1),
            None => None,
        }
    }

    /// Mutable access to the tie between two agents, created at `tick` if missing.
    pub fn get_or_create_tie(&mut self, a: AgentId, b: AgentId, tick: u64) -> (r: &mut SocialTie)
        ensures
            *r == tie_or_new(old(self)@, tie_key(a, b), tick),
            final(self)@ == upsert_tie(old(self)@, tie_key(a, b), *final(r)),
    {
        let ghost before = self@;
        let k = Self::get_tie_key(a, b);
        let i = match self.find_index(k) {
            Some(i) => i,
            None => {
                self.ties.push((k, SocialTie::new(tick)));
                self.ties.len() - 1
            },
        };
        proof {
            lemma_find_tie(before, k);
            assert forall|x: SocialTie| #[trigger] self@.update(i as int, (k, x)) == upsert_tie(before, k, x) by {
                assert(self@.update(i as int, (k, x)) =~= upsert_tie(before, k, x));
            }
        }
        &mut self.ties[i].1
    }


    /// Records a cooperation: an interaction of outcome +5.
    pub fn record_cooperation(&mut self, a: AgentId, b: AgentId, tick: u64)
        requires
            update_trust_ok(tie_or_new(old(self)@, tie_key(a, b), tick), 5),
        ensures
            final(self)@ == upsert_tie(
                old(self)@,
                tie_key(a, b),
                spec_update_trust(tie_or_new(old(self)@, tie_key(a, b), tick), 5, tick),
            ),
            ({
                let before = tie_or_new(old(self)@, tie_key(a, b), tick);
                let after = lookup_tie(final(self)@, tie_key(a, b))->Some_0;
                &&& lookup_tie(final(self)@, tie_key(a, b)) is Some
                &&& after.grievance == before.grievance
                &&& after.cooperation_success == before.cooperation_success + 1
                &&& after.interaction_count == before.interaction_count + 1
                &&& -100 <= before.trust <= 100 ==> (after.trust > before.trust || after.trust == 100)
            }),
    {
        proof {
            let k = tie_key(a, b);
            let before = tie_or_new(old(self)@, k, tick);
            lemma_lookup_upsert(old(self)@, k, spec_update_trust(before, 5, tick));
            lemma_update_trust_laws(before, 5, tick);
        }
        let tie = self.get_or_create_tie(a, b, tick);
        tie.update_trust(5, tick);
    }

    /// Records a conflict: an interaction whose outcome is minus the severity capped at 100.
    pub fn record_conflict(&mut self, a: AgentId, b: AgentId, severity: u8, tick: u64)
        requires
            update_trust_ok(tie_or_new(old(self)@, tie_key(a, b), tick), conflict_outcome(severity)),
        ensures
            final(self)@ == upsert_tie(
                old(self)@,
                tie_key(a, b),
                spec_update_trust(tie_or_new(old(self)@, tie_key(a, b), tick), conflict_outcome(severity), tick),
            ),
            ({
                let before = tie_or_new(old(self)@, tie_key(a, b), tick);
                let after = lookup_tie(final(self)@, tie_key(a, b))->Some_0;
                &&& lookup_tie(final(self)@, tie_key(a, b)) is Some
                &&& after.interaction_count == before.interaction_count + 1
                &&& severity > 0 ==> {
                    &&& after.grievance == min_int(before.grievance + min_int(severity as int, 100), 100)
                    &&& after.conflict_count == before.conflict_count + 1
                    &&& after.cooperation_success == before.cooperation_success
                }
            }),
    {
        proof {
            let k = tie_key(a, b);
            let before = tie_or_new(old(self)@, k, tick);
            lemma_lookup_upsert(old(self)@, k, spec_update_trust(before, conflict_outcome(severity), tick));
            lemma_update_trust_laws(before, conflict_outcome(severity), tick);
        }
        let tie = self.get_or_create_tie(a, b, tick);
        let capped: i16 = if (severity as i16) <= 100 { severity as i16 } else { 100 };
        let outcome: i8 = -(capped as i8);
        tie.update_trust(outcome, tick);
    }

    /// Records a neutral interaction: only the count and the last tick change.
    pub fn record_neutral(&mut self, a: AgentId, b: AgentId, tick: u64)
        requires
            tie_or_new(old(self)@, tie_key(a, b), tick).interaction_count < u32::MAX,
        ensures
            final(self)@ == upsert_tie(
                old(self)@,
                tie_key(a, b),
                spec_neutral(tie_or_new(old(self)@, tie_key(a, b), tick), tick),
            ),
    {
        let tie = self.get_or_create_tie(a, b, tick);
        tie.interaction_count = tie.interaction_count + 1;
        tie.last_interaction_tick = tick;
    }

    /// All ties of one agent, each with the other agent's id, in table order.
    pub fn get_agent_ties(&self, agent_id: AgentId) -> (r: Vec<(AgentId, &SocialTie)>)
        ensures
            r@.len() == agent_ties(self@, agent_id.0).len(),
            forall|i: int|
                0 <= i < r@.len() ==> (#[trigger] r@[i]).0 == agent_ties(self@, agent_id.0)[i].0
                    && *r@[i].1 == agent_ties(self@, agent_id.0)[i].1,
    {
        let mut r: Vec<(AgentId, &SocialTie)> = Vec::new();
        let mut i: usize = 0;
        while i < self.ties.len()
            invariant
                0 <= i <= self.ties.len(),
                r@.len() == agent_ties(self@.take(i as int), agent_id.0).len(),
                forall|j: int|
                    0 <= j < r@.len() ==> (#[trigger] r@[j]).0 == agent_ties(self@.take(i as int), agent_id.0)[j].0
                        && *r@[j].1 == agent_ties(self@.take(i as int), agent_id.0)[j].1,
            decreases self.ties.len() - i,
        {
            proof {
                assert(self@.take(i + 1).drop_last() =~= self@.take(i as int));
            }
            let entry = &self.ties[i];
            if entry.0.0 == agent_id.0 {
                r.push((AgentId(entry.0.1), &entry.1));
            } else if entry.0.1 == agent_id.0 {
                r.push((AgentId(entry.0.0), &entry.1));
            }
            i = i + 1;
        }
        proof {
            assert(self@.take(self@.len() as int) =~= self@);
        }
        r
    }

    /// Decays every tie by the ticks since its last interaction.
    pub fn apply_decay(&mut self, current_tick: u64)
        ensures
            final(self)@.len() == old(self)@.len(),
            forall|i: int|
                0 <= i < final(self)@.len() ==> #[trigger] final(self)@[i] == decayed_entry(old(self)@[i], current_tick),
    {
        let ghost before = self@;
        let n = self.ties.len();
        let mut i: usize = 0;
        while i < n
            invariant
                n == before.len(),
                self@.len() == n,
                0 <= i <= n,
                forall|j: int| 0 <= j < i ==> #[trigger] self@[j] == decayed_entry(before[j], current_tick),
                forall|j: int| i <= j < n ==> #[trigger] self@[j] == before[j],
            decreases n - i,
        {
            let mut entry = self.ties[i];
            let ticks_passed = current_tick.saturating_sub(entry.1.last_interaction_tick);
            if ticks_passed > 0 {
                entry.1.decay(ticks_passed);
            }
            self.ties.set(i, entry);
            i = i + 1;
        }
    }

    /// Network-wide totals and averages (averages truncate toward zero).
    pub fn statistics(&self) -> (st: SocialNetworkStatistics)
        requires
            self@.len() <= u32::MAX,
        ensures
            st == spec_network_statistics(self@),
    {
        let n = self.ties.len();
        if n == 0 {
            return SocialNetworkStatistics::default();
        }
        let mut total_trust: i64 = 0;
        let mut total_grievance: u64 = 0;
        let mut cooperation: u64 = 0;
        let mut conflict: u64 = 0;
        let mut i: usize = 0;
        while i < n
            invariant
                n == self@.len(),
                n <= u32::MAX,
                0 <= i <= n,
                total_trust == sum_trust(self@.take(i as int)),
                total_grievance == sum_grievance(self@.take(i as int)),
                cooperation == sum_cooperation(self@.take(i as int)),
                conflict == sum_conflict(self@.take(i as int)),
                -128 * i <= total_trust <= 127 * i,
                total_grievance <= 255 * i,
                cooperation <= u32::MAX * i,
                conflict <= u32::MAX * i,
            decreases n - i,
        {
            proof {
                assert(self@.take(i + 1).drop_last() =~= self@.take(i as int));
                assert(u32::MAX * i + u32::MAX <= u32::MAX * u32::MAX) by (nonlinear_arith)
                    requires i < u32::MAX;
            }
            let t = self.ties[i].1;
            total_trust = total_trust + t.trust as i64;
            total_grievance = total_grievance + t.grievance as u64;
            cooperation = cooperation + t.cooperation_success as u64;
            conflict = conflict + t.conflict_count as u64;
            i = i + 1;
        }
        proof {
            assert(self@.take(n as int) =~= self@);
        }
        SocialNetworkStatistics {
            total_ties: n as u64,
            average_trust: (total_trust / n as i64) as i8,
            average_grievance: (total_grievance / n as u64) as u8,
            total_cooperation: cooperation,
            total_conflict: conflict,
        }
    }
}

impl Default for SocialNetwork {
    fn default() -> (n: Self)
        ensures
            n@ == Seq::<TieEntry>::empty(),
    {
        SocialNetwork::new()
    }
}

/// Outcome that `record_conflict` passes on for a severity.
pub open spec fn conflict_outcome(severity: u8) -> i8 {
    (-min_int(severity as int, 100)) as i8
}

pub open spec fn spec_neutral(t: SocialTie, tick: u64) -> SocialTie {
    SocialTie { interaction_count: (t.interaction_count + 1) as u32, last_interaction_tick: tick, ..t }
}

/// The ties that involve `id`, each paired with the other agent, in table order.
pub open spec fn agent_ties(s: Seq<TieEntry>, id: u64) -> Seq<(AgentId, SocialTie)>
    decreases s.len(),
{
    if s.len() == 0 {
        Seq::empty()
    } else {
        let r = agent_ties(s.drop_last(), id);
        let e = s.last();
        if e.0.0 == id {
            r.push((AgentId(e.0.1), e.1))
        } else if e.0.1 == id {
            r.push((AgentId(e.0.0), e.1))
        } else {
            r
        }
    }
}

pub open spec fn ticks_since(t: SocialTie, current_tick: u64) -> u64 {
    if current_tick >= t.last_interaction_tick {
        (current_tick - t.last_interaction_tick) as u64
    } else {
        0
    }
}

/// A table entry after decay at `current_tick`; ties touched at this tick or later stay.
pub open spec fn decayed_entry(e: TieEntry, current_tick: u64) -> TieEntry {
    let ticks = ticks_since(e.1, current_tick);
    if ticks > 0 {
        (e.0, spec_decay(e.1, ticks))
    } else {
        e
    }
}

pub open spec fn sum_trust(s: Seq<TieEntry>) -> int
    decreases s.len(),
{
    if s.len() == 0 { 0 } else { sum_trust(s.drop_last()) + s.last().1.trust }
}

pub open spec fn sum_grievance(s: Seq<TieEntry>) -> int
    decreases s.len(),
{
    if s.len() == 0 { 0 } else { sum_grievance(s.drop_last()) + s.last().1.grievance }
}

pub open spec fn sum_cooperation(s: Seq<TieEntry>) -> int
    decreases s.len(),
{
    if s.len() == 0 { 0 } else { sum_cooperation(s.drop_last()) + s.last().1.cooperation_success }
}

pub open spec fn sum_conflict(s: Seq<TieEntry>) -> int
    decreases s.len(),
{
    if s.len() == 0 { 0 } else { sum_conflict(s.drop_last()) + s.last().1.conflict_count }
}

pub open spec fn spec_network_statistics(s: Seq<TieEntry>) -> SocialNetworkStatistics {
    if s.len() == 0 {
        SocialNetworkStatistics {
            total_ties: 0,
            average_trust: 0,
            average_grievance: 0,
            total_cooperation: 0,
            total_conflict: 0,
        }
    } else {
        SocialNetworkStatistics {
            total_ties: s.len() as u64,
            average_trust: trunc_div(sum_trust(s), s.len() as int) as i8,
            average_grievance: (sum_grievance(s) / (s.len() as int)) as u8,
            total_cooperation: sum_cooperation(s) as u64,
            total_conflict: sum_conflict(s) as u64,
        }
    }
}

/// Summary of a social network.
#[derive(Debug, Clone, Copy, PartialEq, Eq, Structural)]
pub struct SocialNetworkStatistics {
    pub total_ties: u64,
    pub average_trust: i8,
    pub average_grievance: u8,
    pub total_cooperation: u64,
    pub total_conflict: u64,
}

impl Default for SocialNetworkStatistics {
    fn default() -> (st: Self)
        ensures
            st == spec_network_statistics(Seq::empty()),
    {
        SocialNetworkStatistics {
            total_ties: 0,
            average_trust: 0,
            average_grievance: 0,
            total_cooperation: 0,
            total_conflict: 0,
        }
    }
}


/// The key of a tie does not depend on the order in which the two agents are named.
pub proof fn lemma_tie_key_symmetric(a: AgentId, b: AgentId)
    ensures
        tie_key(a, b) == tie_key(b, a),
        tie_key(a, b).0 <= tie_key(a, b).1,
{
}

/// Inserting or replacing under a normalised key keeps the table well formed.
/// After storing `t` under `k`, a lookup of `k` finds `t`.
pub proof fn lemma_lookup_upsert(s: Seq<TieEntry>, k: (u64, u64), t: SocialTie)
    ensures
        lookup_tie(upsert_tie(s, k, t), k) == Some(t),
{
    lemma_find_tie(s, k);
    let u = upsert_tie(s, k, t);
    lemma_find_tie(u, k);
    let i = find_tie(s, k);
    if i >= 0 {
        assert(u[i].0 == k);
        assert forall|j: int| 0 <= j < i implies u[j].0 != k by {
            assert(u[j] == s[j]);
        }
    } else {
        assert(u[s.len() as int].0 == k);
        assert forall|j: int| 0 <= j < s.len() implies u[j].0 != k by {
            assert(u[j] == s[j]);
        }
    }
}

pub proof fn lemma_upsert_wf(s: Seq<TieEntry>, k: (u64, u64), t: SocialTie)
    requires
        ties_wf(s),
        k.0 <= k.1,
    ensures
        ties_wf(upsert_tie(s, k, t)),
        upsert_tie(s, k, t).len() == s.len() || upsert_tie(s, k, t).len() == s.len() + 1,
        lookup_tie(upsert_tie(s, k, t), k) == Some(t),
{
    lemma_find_tie(s, k);
    let u = upsert_tie(s, k, t);
    let i = find_tie(s, k);
    if i >= 0 {
        assert forall|a: int, b: int| 0 <= a < b < u.len() implies (#[trigger] u[a]).0 != (#[trigger] u[b]).0 by {
            if a != i && b != i {
                assert(u[a] == s[a] && u[b] == s[b]);
            }
        }
        lemma_find_tie_unique(u, k, i);
    } else {
        assert forall|a: int, b: int| 0 <= a < b < u.len() implies (#[trigger] u[a]).0 != (#[trigger] u[b]).0 by {
            if b < s.len() {
                assert(u[a] == s[a] && u[b] == s[b]);
            }
        }
        lemma_find_tie_unique(u, k, s.len() as int);
    }
}

/// Replacing or appending a bounded tie keeps every tie bounded.
pub proof fn lemma_upsert_bounded(s: Seq<TieEntry>, k: (u64, u64), t: SocialTie)
    requires
        ties_bounded(s),
        tie_bounded(t),
    ensures
        ties_bounded(upsert_tie(s, k, t)),
{
    lemma_find_tie(s, k);
    let u = upsert_tie(s, k, t);
    assert forall|i: int| 0 <= i < u.len() implies tie_bounded(#[trigger] u[i].1) by {
        if i < s.len() && i != find_tie(s, k) {
            assert(u[i] == s[i]);
        }
    }
}

/// Recording an interaction keeps the table well formed and every tie within
/// the trust range [-100, 100] and the grievance range [0, 100].
pub proof fn lemma_record_keeps_ties_valid(s: Seq<TieEntry>, a: AgentId, b: AgentId, outcome: i8, tick: u64)
    requires
        ties_wf(s),
        ties_bounded(s),
    ensures
        ties_wf(upsert_tie(s, tie_key(a, b), spec_update_trust(tie_or_new(s, tie_key(a, b), tick), outcome, tick))),
        ties_bounded(upsert_tie(s, tie_key(a, b), spec_update_trust(tie_or_new(s, tie_key(a, b), tick), outcome, tick))),
        ties_wf(upsert_tie(s, tie_key(a, b), spec_neutral(tie_or_new(s, tie_key(a, b), tick), tick))),
        ties_bounded(upsert_tie(s, tie_key(a, b), spec_neutral(tie_or_new(s, tie_key(a, b), tick), tick))),
{
    let k = tie_key(a, b);
    let old_tie = tie_or_new(s, k, tick);
    lemma_find_tie(s, k);
    assert(tie_bounded(old_tie));
    lemma_upsert_wf(s, k, spec_update_trust(old_tie, outcome, tick));
    lemma_upsert_bounded(s, k, spec_update_trust(old_tie, outcome, tick));
    lemma_upsert_wf(s, k, spec_neutral(old_tie, tick));
    lemma_upsert_bounded(s, k, spec_neutral(old_tie, tick));
}


/// Tension of the pair `(ids[i], ids[j])`, if the two have a tie.
pub open spec fn pair_tension(s: Seq<TieEntry>, ids: Seq<AgentId>, i: int, j: int) -> Option<int> {
    match lookup_tie(s, tie_key(ids[i], ids[j])) {
        Some(t) => Some(tie_tension(t)),
        None => None,
    }
}

/// Sum and number of the tensions of pairs `(i, k)` with `i < k < j`.
pub open spec fn row_tension(s: Seq<TieEntry>, ids: Seq<AgentId>, i: nat, j: nat) -> (int, int)
    decreases j,
{
    if j <= i + 1 {
        (0, 0)
    } else {
        let (sum, count) = row_tension(s, ids, i, (j - 1) as nat);
        match pair_tension(s, ids, i as int, j - 1) {
            Some(t) => (sum + t, count + 1),
            None => (sum, count),
        }
    }
}

/// Sum and number of the tensions of all pairs `(k, l)` with `k < i` and `k < l < ids.len()`.
pub open spec fn tri_tension(s: Seq<TieEntry>, ids: Seq<AgentId>, i: nat) -> (int, int)
    decreases i,
{
    if i == 0 {
        (0, 0)
    } else {
        let (sum, count) = tri_tension(s, ids, (i - 1) as nat);
        let (rs, rc) = row_tension(s, ids, (i - 1) as nat, ids.len());
        (sum + rs, count + rc)
    }
}

/// Mean tension over the pairs of `ids` that have a tie, or 0 if there are none.
pub open spec fn spec_partition_tension(s: Seq<TieEntry>, ids: Seq<AgentId>) -> u8 {
    if ids.len() < 2 {
        0
    } else {
        let (sum, count) = tri_tension(s, ids, ids.len());
        if count == 0 {
            0
        } else {
            (sum / count) as u8
        }
    }
}

/// Every tie between two of the listed agents has its trust within [-100, 100].
pub open spec fn pairs_trust_bounded(s: Seq<TieEntry>, ids: Seq<AgentId>) -> bool {
    forall|i: int, j: int|
        0 <= i < j < ids.len() ==> match #[trigger] lookup_tie(s, tie_key(ids[i], ids[j])) {
            Some(t) => -100 <= t.trust <= 100,
            None => true,
        }
}

pub proof fn lemma_row_tension_bounds(s: Seq<TieEntry>, ids: Seq<AgentId>, i: nat, j: nat)
    requires
        pairs_trust_bounded(s, ids),
        j <= ids.len(),
    ensures
        0 <= row_tension(s, ids, i, j).1,
        j > i ==> row_tension(s, ids, i, j).1 <= j - i,
        j <= i ==> row_tension(s, ids, i, j).1 == 0,
        0 <= row_tension(s, ids, i, j).0 <= 200 * row_tension(s, ids, i, j).1,
    decreases j,
{
    if j > i + 1 {
        lemma_row_tension_bounds(s, ids, i, (j - 1) as nat);
        let k = tie_key(ids[i as int], ids[j - 1]);
        assert(match lookup_tie(s, k) {
            Some(t) => -100 <= t.trust <= 100,
            None => true,
        });
    }
}

pub proof fn lemma_tri_tension_bounds(s: Seq<TieEntry>, ids: Seq<AgentId>, i: nat)
    requires
        pairs_trust_bounded(s, ids),
        i <= ids.len(),
    ensures
        0 <= tri_tension(s, ids, i).1 <= i * ids.len(),
        0 <= tri_tension(s, ids, i).0 <= 200 * tri_tension(s, ids, i).1,
    decreases i,
{
    if i > 0 {
        lemma_tri_tension_bounds(s, ids, (i - 1) as nat);
        lemma_row_tension_bounds(s, ids, (i - 1) as nat, ids.len());
        assert((i - 1) * ids.len() + ids.len() == i * ids.len()) by (nonlinear_arith);
    }
}

impl SocialNetwork {
    /// Social tension among a set of agents: the mean tension over the pairs
    /// that have a tie (0 if fewer than two agents or no such pair).
    pub fn partition_tension(&self, agent_ids: &[AgentId]) -> (r: u8)
        requires
            agent_ids@.len() <= 1_000_000,
            pairs_trust_bounded(self@, agent_ids@),
        ensures
            r == spec_partition_tension(self@, agent_ids@),
    {
        let n = agent_ids.len();
        if n < 2 {
            return 0;
        }
        let ghost ids = agent_ids@;
        let mut total_tension: u64 = 0;
        let mut pair_count: u64 = 0;
        let mut i: usize = 0;
        while i < n
            invariant
                n == ids.len(),
                n <= 1_000_000,
                pairs_trust_bounded(self@, ids),
                ids == agent_ids@,
                0 <= i <= n,
                total_tension == tri_tension(self@, ids, i as nat).0,
                pair_count == tri_tension(self@, ids, i as nat).1,
            decreases n - i,
        {
            let mut j: usize = i + 1;
            proof {
                lemma_tri_tension_bounds(self@, ids, i as nat);
                assert(i * n <= 1_000_000 * 1_000_000) by (nonlinear_arith)
                    requires i <= n, n <= 1_000_000;
            }
            while j < n
                invariant
                    n == ids.len(),
                    n <= 1_000_000,
                    pairs_trust_bounded(self@, ids),
                    ids == agent_ids@,
                    0 <= i < n,
                    i + 1 <= j <= n,
                    total_tension == tri_tension(self@, ids, i as nat).0 + row_tension(self@, ids, i as nat, j as nat).0,
                    pair_count == tri_tension(self@, ids, i as nat).1 + row_tension(self@, ids, i as nat, j as nat).1,
                    0 <= tri_tension(self@, ids, i as nat).1 <= i * n,
                    0 <= tri_tension(self@, ids, i as nat).0 <= 200 * tri_tension(self@, ids, i as nat).1,
                    i * n <= 1_000_000 * 1_000_000,
                decreases n - j,
            {
                proof {
                    lemma_row_tension_bounds(self@, ids, i as nat, j as nat);
                }
                match self.get_tie(agent_ids[i], agent_ids[j]) {
                    Some(tie) => {
                        proof {
                            assert(match lookup_tie(self@, tie_key(ids[i as int], ids[j as int])) {
                                Some(t) => -100 <= t.trust <= 100,
                                None => true,
                            });
                        }
                        let abs_trust: u64 = if tie.trust < 0 { (-(tie.trust as i16)) as u64 } else { tie.trust as u64 };
                        let tension: u64 = (100 - abs_trust) + tie.grievance as u64;
                        total_tension = total_tension + if tension <= 200 { tension } else { 200 };
                        pair_count = pair_count + 1;
                    },
                    None => {},
                }
                j = j + 1;
            }
            i = i + 1;
        }
        if pair_count == 0 {
            return 0;
        }
        proof {
            lemma_tri_tension_bounds(self@, ids, n as nat);
            assert(total_tension / pair_count <= 200) by (nonlinear_arith)
                requires total_tension <= 200 * pair_count, pair_count > 0;
        }
        (total_tension / pair_count) as u8
    }
}


/// How the animals of a partition perceive and respond to humans.
#[derive(Debug, Clone, Copy, PartialEq, Eq, Structural)]
pub struct CrossSpeciesState {
    pub familiarity: u8,
    pub fear: u8,
    pub aggression: u8,
    pub human_tolerance: u8,
    pub last_human_contact: u64,
    pub positive_human_interactions: u32,
    pub negative_human_interactions: u32,
}

pub open spec fn spec_wild() -> CrossSpeciesState {
    CrossSpeciesState {
        familiarity: 5,
        fear: 80,
        aggression: 30,
        human_tolerance: 10,
        last_human_contact: 0,
        positive_human_interactions: 0,
        negative_human_interactions: 0,
    }
}

pub open spec fn spec_proto_domestic() -> CrossSpeciesState {
    CrossSpeciesState {
        familiarity: 30,
        fear: 50,
        aggression: 20,
        human_tolerance: 40,
        last_human_contact: 0,
        positive_human_interactions: 0,
        negative_human_interactions: 0,
    }
}

/// Forgetting between contacts: fear, familiarity and aggression fall by the
/// elapsed ticks over 500, 1000 and 800, each floored at zero.
pub open spec fn spec_cross_decay(c: CrossSpeciesState, ticks: u64) -> CrossSpeciesState {
    CrossSpeciesState {
        fear: sat_sub_u8(c.fear as int, ticks as int / 500),
        familiarity: sat_sub_u8(c.familiarity as int, ticks as int / 1000),
        aggression: sat_sub_u8(c.aggression as int, ticks as int / 800),
        ..c
    }
}

/// State after the decay that precedes a contact at `tick`.
pub open spec fn contact_base(c: CrossSpeciesState, tick: u64) -> CrossSpeciesState {
    let since = if tick >= c.last_human_contact { (tick - c.last_human_contact) as u64 } else { 0u64 };
    CrossSpeciesState { last_human_contact: tick, ..spec_cross_decay(c, since) }
}

/// Whether `update_from_human_contact` can run without an arithmetic overflow.
pub open spec fn contact_ok(c: CrossSpeciesState, contact_severity: i8, proximity: u8, tick: u64) -> bool {
    let d = contact_base(c, tick);
    &&& contact_severity > -128
    &&& contact_severity < 0 ==> c.negative_human_interactions < u32::MAX
    &&& contact_severity >= 0 ==> c.positive_human_interactions < u32::MAX
    &&& (contact_severity >= 0 && proximity < d.human_tolerance) ==> (
        d.human_tolerance + contact_severity <= 255 && d.familiarity + contact_severity <= 255)
}

/// Harsh contact raises fear, aggression and familiarity and lowers tolerance;
/// gentle contact within the tolerated distance raises tolerance and
/// familiarity and lowers fear, and any gentle contact lowers aggression.
/// Fear, aggression and familiarity are then capped at 100.
pub open spec fn spec_human_contact(c: CrossSpeciesState, contact_severity: i8, proximity: u8, tick: u64) -> CrossSpeciesState {
    let d = contact_base(c, tick);
    let e = if contact_severity < 0 {
        let sev = -(contact_severity as int);
        CrossSpeciesState {
            fear: sat_add_u8(d.fear as int, sev * 2),
            aggression: sat_add_u8(d.aggression as int, sev),
            human_tolerance: sat_sub_u8(d.human_tolerance as int, sev),
            familiarity: sat_add_u8(d.familiarity as int, sev / 2),
            negative_human_interactions: (d.negative_human_interactions + 1) as u32,
            ..d
        }
    } else {
        let benefit = contact_severity as int;
        let f = if proximity < d.human_tolerance {
            CrossSpeciesState {
                human_tolerance: min_int(d.human_tolerance + benefit, 100) as u8,
                fear: sat_sub_u8(d.fear as int, benefit * 2),
                familiarity: min_int(d.familiarity + benefit, 100) as u8,
                ..d
            }
        } else {
            d
        };
        CrossSpeciesState {
            aggression: sat_sub_u8(f.aggression as int, benefit),
            positive_human_interactions: (f.positive_human_interactions + 1) as u32,
            ..f
        }
    };
    CrossSpeciesState {
        fear: min_int(e.fear as int, 100) as u8,
        aggression: min_int(e.aggression as int, 100) as u8,
        familiarity: min_int(e.familiarity as int, 100) as u8,
        ..e
    }
}

/// Progress toward domestication: tolerance, calmness and familiarity weighted
/// 40, 35 and 25 out of 100, where calmness is (100 - fear) + (100 - aggression) / 2.
pub open spec fn spec_domestication_progress(c: CrossSpeciesState) -> int {
    let calmness = (100 - c.fear) + (100 - c.aggression) / 2;
    (c.human_tolerance * 40 + calmness * 35 + c.familiarity * 25) / 100
}

impl CrossSpeciesState {
    /// Wild animals: low familiarity, high fear.
    pub fn wild() -> (c: Self)
        ensures
            c == spec_wild(),
    {
        CrossSpeciesState {
            familiarity: 5,
            fear: 80,
            aggression: 30,
            human_tolerance: 10,
            last_human_contact: 0,
            positive_human_interactions: 0,
            negative_human_interactions: 0,
        }
    }

    /// Proto-domestic animals: a higher baseline tolerance.
    pub fn proto_domestic() -> (c: Self)
        ensures
            c == spec_proto_domestic(),
    {
        CrossSpeciesState {
            familiarity: 30,
            fear: 50,
            aggression: 20,
            human_tolerance: 40,
            last_human_contact: 0,
            positive_human_interactions: 0,
            negative_human_interactions: 0,
        }
    }

    /// Updates the state after a human encounter: negative severity is harsh
    /// contact, non-negative is gentle; `proximity` is the distance of contact.
    pub fn update_from_human_contact(&mut self, contact_severity: i8, proximity: u8, tick: u64)
        requires
            contact_ok(*old(self), contact_severity, proximity, tick),
        ensures
            *final(self) == spec_human_contact(*old(self), contact_severity, proximity, tick),
            final(self).fear <= 100 && final(self).aggression <= 100 && final(self).familiarity <= 100,
    {
        let ticks_since_last = tick.saturating_sub(self.last_human_contact);
        self.last_human_contact = tick;
        self.decay(ticks_since_last);
        if contact_severity < 0 {
            let severity: u8 = (-contact_severity) as u8;
            self.fear = self.fear.saturating_add(severity * 2);
            self.aggression = self.aggression.saturating_add(severity);
            self.human_tolerance = self.human_tolerance.saturating_sub(severity);
            self.familiarity = self.familiarity.saturating_add(severity / 2);
            self.negative_human_interactions = self.negative_human_interactions + 1;
        } else {
            let benefit: u8 = contact_severity as u8;
            if proximity < self.human_tolerance {
                let t: u8 = self.human_tolerance + benefit;
                self.human_tolerance = if t <= 100 { t } else { 100 };
                self.fear = self.fear.saturating_sub(benefit * 2);
                let f: u8 = self.familiarity + benefit;
                self.familiarity = if f <= 100 { f } else { 100 };
            }
            self.aggression = self.aggression.saturating_sub(benefit);
            self.positive_human_interactions = self.positive_human_interactions + 1;
        }
        self.fear = if self.fear <= 100 { self.fear } else { 100 };
        self.aggression = if self.aggression <= 100 { self.aggression } else { 100 };
        self.familiarity = if self.familiarity <= 100 { self.familiarity } else { 100 };
    }

    fn decay(&mut self, ticks_passed: u64)
        ensures
            *final(self) == spec_cross_decay(*old(self), ticks_passed),
    {
        self.fear = sat_sub_ticks(self.fear, ticks_passed / 500);
        self.familiarity = sat_sub_ticks(self.familiarity, ticks_passed / 1000);
        self.aggression = sat_sub_ticks(self.aggression, ticks_passed / 800);
    }

    /// Progress toward domestication (see `spec_domestication_progress`).
    pub fn domestication_progress(&self) -> (p: u8)
        requires
            self.fear <= 100,
            self.aggression <= 100,
        ensures
            p == spec_domestication_progress(*self),
    {
        let tolerance_factor = self.human_tolerance;
        let calmness_factor: u8 = (100 - self.fear) + (100 - self.aggression) / 2;
        let familiarity_factor = self.familiarity;
        let weighted: u16 = tolerance_factor as u16 * 40 + calmness_factor as u16 * 35
            + familiarity_factor as u16 * 25;
        (weighted / 100) as u8
    }

    pub fn tolerates_proximity(&self, distance: u8) -> (r: bool)
        ensures
            r == (distance <= self.human_tolerance),
    {
        distance <= self.human_tolerance
    }

    /// Flees when a draw below 100 is under fear * 80 / 100.
    pub fn will_flee(&self, rng: &mut DeterministicRng) -> (r: bool)
        ensures
            final(rng)@ == bounded_state(old(rng)@, 100),
            r == (bounded_value(old(rng)@, 100) < self.fear * 80 / 100),
    {
        let flee_threshold: u64 = self.fear as u64 * 80 / 100;
        rng.next_bounded(100) < flee_threshold
    }

    /// Attacks when a draw below 100 is under (aggression - fear / 3) * 60 / 100.
    pub fn will_attack(&self, rng: &mut DeterministicRng) -> (r: bool)
        ensures
            final(rng)@ == bounded_state(old(rng)@, 100),
            r == (bounded_value(old(rng)@, 100) < sat_sub_u8(self.aggression as int, self.fear as int / 3) * 60 / 100),
    {
        let effective_aggression = self.aggression.saturating_sub(self.fear / 3);
        let attack_threshold: u64 = effective_aggression as u64 * 60 / 100;
        rng.next_bounded(100) < attack_threshold
    }
}

impl Default for CrossSpeciesState {
    fn default() -> (c: Self)
        ensures
            c == spec_wild(),
    {
        CrossSpeciesState::wild()
    }
}

} // verus!
