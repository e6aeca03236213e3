use vstd::prelude::*;
use vstd::string::*;

verus! {

/// Seed for a simulation run.
#[derive(Debug, Clone, Copy, PartialEq, Eq, Hash, Structural)]
pub struct SimulationSeed(pub u64);

impl SimulationSeed {
    pub fn new(value: u64) -> (seed: Self)
        ensures
            seed.0 == value,
    {
        SimulationSeed(value)
    }
}

/// Increment that SplitMix64 adds to its state before every draw.
pub open spec fn rng_gamma() -> u64 {
    0x9E37_79B9_7F4A_7C15u64
}

/// One SplitMix64 state transition.
pub open spec fn rng_advance(s: u64) -> u64 {
    s.wrapping_add(rng_gamma())
}

/// SplitMix64 output function applied to an (already advanced) state.
pub open spec fn rng_mix(z: u64) -> u64 {
    let z1 = (z ^ (z >> 30u64)).wrapping_mul(0xBF58_476D_1CE4_E5B9u64);
    let z2 = (z1 ^ (z1 >> 27u64)).wrapping_mul(0x94D0_49BB_1331_11EBu64);
    z2 ^ (z2 >> 31u64)
}

/// The state reached from `s` after `n` transitions.
pub open spec fn state_after(s: u64, n: nat) -> u64
    decreases n,
{
    if n == 0 {
        s
    } else {
        rng_advance(state_after(s, (n - 1) as nat))
    }
}

/// The `k`-th raw 64-bit draw of a generator whose state is `s` (counting from 0).
pub open spec fn rng_draw(s: u64, k: nat) -> u64 {
    rng_mix(state_after(s, k + 1))
}

/// The `k`-th draw reduced below a positive bound, as `next_bounded` computes it.
pub open spec fn rng_draw_below(s: u64, k: nat, upper: u64) -> u64
    recommends
        upper > 0,
{
    rng_draw(s, k) % upper
}

/// State after one call of `next_bounded(upper)`: a bound of 0 draws nothing.
pub open spec fn bounded_state(s: u64, upper: u64) -> u64 {
    if upper == 0 {
        s
    } else {
        rng_advance(s)
    }
}

/// Result of one call of `next_bounded(upper)` on state `s`.
pub open spec fn bounded_value(s: u64, upper: u64) -> u64 {
    if upper == 0 {
        0
    } else {
        rng_mix(rng_advance(s)) % upper
    }
}

pub proof fn lemma_state_after_step(s: u64, n: nat)
    ensures
        state_after(s, n + 1) == rng_advance(state_after(s, n)),
{
}

/// The stream is reproducible from any point: running `m` draws and then
/// `n` more reaches the state of running `m + n` draws, so a generator
/// restored from a saved state continues the same stream.
pub proof fn lemma_state_after_add(s: u64, m: nat, n: nat)
    ensures
        state_after(state_after(s, m), n) == state_after(s, m + n),
    decreases n,
{
    if n > 0 {
        lemma_state_after_add(s, m, (n - 1) as nat);
        assert(state_after(s, m + n) == rng_advance(state_after(s, (m + n - 1) as nat)));
    }
}

/// The `k`-th draw after `m` draws is draw `m + k` of the whole stream.
pub proof fn lemma_draw_after(s: u64, m: nat, k: nat)
    ensures
        rng_draw(state_after(s, m), k) == rng_draw(s, m + k),
{
    lemma_state_after_add(s, m, k + 1);
}

/// Deterministic SplitMix64 generator; its view is the internal state.
#[derive(Debug, Clone, Copy, PartialEq, Eq, Structural)]
pub struct DeterministicRng {
    state: u64,
}

impl View for DeterministicRng {
    type V = u64;

    closed spec fn view(&self) -> u64 {
        self.state
    }
}

impl DeterministicRng {
    pub fn from_seed(seed: SimulationSeed) -> (rng: Self)
        ensures
            rng@ == seed.0,
    {
        DeterministicRng { state: seed.0 }
    }

    pub fn from_u64(seed: u64) -> (rng: Self)
        ensures
            rng@ == seed,
    {
        DeterministicRng { state: seed }
    }

    /// SplitMix64: advance the state, then mix it.
    pub fn next_u64(&mut self) -> (r: u64)
        ensures
            final(self)@ == rng_advance(old(self)@),
            r == rng_mix(final(self)@),
    {
        self.state = self.state.wrapping_add(0x9E37_79B9_7F4A_7C15u64);
        let mut z = self.state;
        z = (z ^ (z >> 30u64)).wrapping_mul(0xBF58_476D_1CE4_E5B9u64);
        z = (z ^ (z >> 27u64)).wrapping_mul(0x94D0_49BB_1331_11EBu64);
        z ^ (z >> 31u64)
    }

    /// A draw reduced below `upper_exclusive`; a bound of 0 yields 0 and leaves the state alone.
    pub fn next_bounded(&mut self, upper_exclusive: u64) -> (r: u64)
        ensures
            final(self)@ == bounded_state(old(self)@, upper_exclusive),
            r == bounded_value(old(self)@, upper_exclusive),
            upper_exclusive > 0 ==> r < upper_exclusive,
    {
        if upper_exclusive == 0 {
            return 0;
        }
        let v = self.next_u64();
        v % upper_exclusive
    }
}

/// Version string of the model.
pub fn model_version() -> (v: &'static str)
    ensures
        v@ == "0.1.0"@,
{
    "0.1.0"
}

/// Workspace status indicator.
pub fn workspace_status() -> (s: &'static str)
    ensures
        s@ == "active"@,
{
    "active"
}

/// Which subsystems a run has switched on.
#[derive(Debug, Clone, Copy, PartialEq, Eq, Structural)]
pub struct EnabledSubsystems {
    pub world_substrate: bool,
    pub agents: bool,
    pub social_fabric: bool,
    pub collective_agency: bool,
    pub discovery: bool,
    pub biology: bool,
    pub inference: bool,
}

impl EnabledSubsystems {
    pub open spec fn all_enabled(self) -> bool {
        &&& self.world_substrate
        &&& self.agents
        &&& self.social_fabric
        &&& self.collective_agency
        &&& self.discovery
        &&& self.biology
        &&& self.inference
    }
}

impl Default for EnabledSubsystems {
    /// All subsystems are enabled by default.
    fn default() -> (s: Self)
        ensures
            s.all_enabled(),
    {
        EnabledSubsystems {
            world_substrate: true,
            agents: true,
            social_fabric: true,
            collective_agency: true,
            discovery: true,
            biology: true,
            inference: true,
        }
    }
}

/// Provenance record of a run.
#[derive(Debug, Clone)]
pub struct RunManifest {
    pub model_version: String,
    pub schema_version: String,
    pub scenario_name: String,
    pub seed: u64,
    pub partition_count: u64,
    pub ticks: u64,
    pub final_state_hash: u64,
    pub state_hash_series: Vec<u64>,
    pub enabled_subsystems: EnabledSubsystems,
    pub execution_mode: String,
    pub workspace_status: String,
    pub started_at: u64,
    pub ended_at: u64,
    pub event_count: u64,
    pub metric_count: u64,
}

/// The system clock's reading type, carried through opaquely.
#[verifier::external_type_specification]
#[verifier::external_body]
pub struct ExSystemTime(std::time::SystemTime);

/// The error of a clock reading taken before the instant it is measured from.
#[verifier::external_type_specification]
#[verifier::external_body]
pub struct ExSystemTimeError(std::time::SystemTimeError);

/// `SystemTime::now`: the current reading of the system clock. Nothing is
/// stated of it: it depends on the time of the call.
#[verifier::external_body]
fn system_time_now() -> (t: std::time::SystemTime) {
    std::time::SystemTime::now()
}

/// `SystemTime::duration_since` applied to the Unix epoch: the time elapsed
/// since the epoch, or an error where the reading lies before it. Nothing is
/// stated of which comes back: it depends on the reading.
#[verifier::external_body]
fn since_unix_epoch(t: &std::time::SystemTime) -> (r: Result<std::time::Duration, std::time::SystemTimeError>) {
    t.duration_since(std::time::UNIX_EPOCH)
}

/// `Duration::as_secs`: the whole seconds of a duration. Nothing is stated of
/// the value: a duration's contents are not modelled here.
#[verifier::external_body]
fn duration_whole_secs(d: &std::time::Duration) -> (s: u64) {
    d.as_secs()
}

/// Seconds since the Unix epoch by the wall clock, 0 if the clock reads
/// before the epoch.
fn unix_time_now() -> (s: u64) {
    let now = system_time_now();
    match since_unix_epoch(&now) {
        Ok(d) => duration_whole_secs(&d),
        Err(_) => 0,
    }
}

impl RunManifest {
    /// A manifest stamped with the current time as start and end.
    pub fn new(
        scenario_name: String,
        seed: u64,
        partition_count: u64,
        ticks: u64,
        final_state_hash: u64,
        state_hash_series: Vec<u64>,
        execution_mode: String,
        event_count: u64,
        metric_count: u64,
    ) -> (m: Self)
        ensures
            m.model_version@ == "0.1.0"@,
            m.schema_version@ == "0.3.0"@,
            m.scenario_name@ == scenario_name@,
            m.seed == seed,
            m.partition_count == partition_count,
            m.ticks == ticks,
            m.final_state_hash == final_state_hash,
            m.state_hash_series@ == state_hash_series@,
            m.enabled_subsystems.all_enabled(),
            m.execution_mode@ == execution_mode@,
            m.workspace_status@ == "active"@,
            m.started_at == m.ended_at,
            m.event_count == event_count,
            m.metric_count == metric_count,
    {
        let now = unix_time_now();
        RunManifest {
            model_version: String::from_str(model_version()),
            schema_version: String::from_str("0.3.0"),
            scenario_name,
            seed,
            partition_count,
            ticks,
            final_state_hash,
            state_hash_series,
            enabled_subsystems: EnabledSubsystems::default(),
            execution_mode,
            workspace_status: String::from_str(workspace_status()),
            started_at: now,
            ended_at: now,
            event_count,
            metric_count,
        }
    }
}

} // verus!
