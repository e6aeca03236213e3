use vstd::prelude::*;

use crate::sim_core::SimulationSeed;

verus! {

pub struct ExportModule;

impl ExportModule {
    pub fn name() -> (n: &'static str)
        ensures
            n@ == "polis-export"@,
    {
        "polis-export"
    }
}

/// The influence a phase had at a tick.
#[derive(Debug, Clone)]
pub struct PhaseDelta {
    pub phase: String,
    pub delta: u64,
}

/// What a snapshot holds besides its header.
#[derive(Debug, Clone, Copy, PartialEq, Eq, Structural)]
pub enum SnapshotData {
    Placeholder { partition_count: u64, world_hash: u64 },
}

/// A state snapshot for resumable runs.
#[derive(Debug, Clone)]
pub struct Snapshot {
    pub version: String,
    pub tick: u64,
    pub seed: u64,
    pub state_hash: u64,
    pub data: SnapshotData,
}

impl Snapshot {
    /// A snapshot of format version "0.1.0".
    pub fn new(tick: u64, seed: SimulationSeed, state_hash: u64, partition_count: u64, world_hash: u64) -> (s: Self)
        ensures
            s.version@ == "0.1.0"@,
            s.tick == tick,
            s.seed == seed.0,
            s.state_hash == state_hash,
            s.data == (SnapshotData::Placeholder { partition_count, world_hash }),
    {
        Snapshot {
            version: "0.1.0".to_owned(),
            tick,
            seed: seed.0,
            state_hash,
            data: SnapshotData::Placeholder { partition_count, world_hash },
        }
    }
}

/// Which subsystems a run had enabled, as exported.
#[derive(Debug, Clone, Copy, PartialEq, Eq, Structural)]
pub struct EnabledSubsystemsExport {
    pub world_substrate: bool,
    pub agents: bool,
    pub social_fabric: bool,
    pub collective_agency: bool,
    pub discovery: bool,
    pub biology: bool,
    pub inference: bool,
}

/// The scenario a run came from, as exported.
#[derive(Debug, Clone)]
pub struct ManifestBundle {
    pub scenario_name: String,
    pub scenario_hash: String,
    pub enabled_subsystems: EnabledSubsystemsExport,
}

/// Comparison of two state-hash series.
#[derive(Debug, Clone)]
pub struct SeriesComparison {
    pub original_series: Vec<u64>,
    pub verification_series: Vec<u64>,
    pub match_count: u64,
    pub total_ticks: u64,
    pub all_match: bool,
}

/// Outcome of re-running a seed and comparing its hashes with the original run.
#[derive(Debug, Clone)]
pub struct ReproducibilityReport {
    pub seed: u64,
    pub ticks: u64,
    pub original_final_hash: u64,
    pub verification_final_hash: u64,
    pub is_verified: bool,
    pub series_comparison: Option<SeriesComparison>,
    pub first_divergence_tick: Option<u64>,
}

/// Number of ticks that a series comparison looks at: the shorter series,
/// at most `ticks`.
pub open spec fn compared_len(a: Seq<u64>, b: Seq<u64>, ticks: u64) -> int {
    let m = if a.len() <= b.len() { a.len() as int } else { b.len() as int };
    if ticks as int <= m { ticks as int } else { m }
}

/// The first compared tick where the two series differ.
pub open spec fn first_divergence(a: Seq<u64>, b: Seq<u64>, n: int) -> Option<u64>
    decreases n,
{
    if n <= 0 {
        None
    } else {
        match first_divergence(a, b, n - 1) {
            Some(t) => Some(t),
            None => if a[n - 1] != b[n - 1] { Some((n - 1) as u64) } else { None },
        }
    }
}

/// Number of the first `n` ticks where the two series agree.
pub open spec fn matching_ticks(a: Seq<u64>, b: Seq<u64>, n: int) -> nat
    decreases n,
{
    if n <= 0 {
        0
    } else {
        matching_ticks(a, b, n - 1) + if a[n - 1] == b[n - 1] { 1nat } else { 0nat }
    }
}

/// The last hash of a series, 0 for an empty one.
pub open spec fn final_hash(a: Seq<u64>) -> u64 {
    if a.len() == 0 { 0 } else { a.last() }
}

/// No divergence is found exactly when the two series agree on every compared tick.
pub proof fn lemma_first_divergence(a: Seq<u64>, b: Seq<u64>, n: int)
    requires
        0 <= n <= a.len(),
        n <= b.len(),
        n <= u64::MAX,
    ensures
        first_divergence(a, b, n) is None <==> forall|i: int| 0 <= i < n ==> a[i] == b[i],
        first_divergence(a, b, n) matches Some(t) ==> t < n && a[t as int] != b[t as int]
            && forall|i: int| 0 <= i < t ==> a[i] == b[i],
    decreases n,
{
    if n > 0 {
        lemma_first_divergence(a, b, n - 1);
    }
}

fn copy_series(s: &[u64]) -> (r: Vec<u64>)
    ensures
        r@ == s@,
{
    let mut r: Vec<u64> = Vec::new();
    let mut i: usize = 0;
    while i < s.len()
        invariant
            0 <= i <= s@.len(),
            r@ == s@.take(i as int),
        decreases s@.len() - i,
    {
        r.push(s[i]);
        proof {
            assert(r@ =~= s@.take(i + 1));
        }
        i = i + 1;
    }
    proof {
        assert(s@.take(s@.len() as int) =~= s@);
    }
    r
}

impl ReproducibilityReport {
    /// Compares two final hashes; verified exactly when they are equal.
    pub fn verify_single(original: u64, verification: u64, seed: u64, ticks: u64) -> (r: Self)
        ensures
            r.seed == seed,
            r.ticks == ticks,
            r.original_final_hash == original,
            r.verification_final_hash == verification,
            r.is_verified == (original == verification),
            r.series_comparison is None,
            r.first_divergence_tick is None,
    {
        ReproducibilityReport {
            seed,
            ticks,
            original_final_hash: original,
            verification_final_hash: verification,
            is_verified: original == verification,
            series_comparison: None,
            first_divergence_tick: None,
        }
    }

    /// Compares two hash series over their first ticks (at most `ticks`,
    /// and no further than the shorter series); verified exactly when they
    /// agree on all of those ticks.
    pub fn verify_series(original_series: &[u64], verification_series: &[u64], seed: u64, ticks: u64) -> (r: Self)
        ensures
            ({
                let a = original_series@;
                let b = verification_series@;
                let n = compared_len(a, b, ticks);
                &&& r.seed == seed
                &&& r.ticks == ticks
                &&& r.original_final_hash == final_hash(a)
                &&& r.verification_final_hash == final_hash(b)
                &&& r.first_divergence_tick == first_divergence(a, b, n)
                &&& r.is_verified == (first_divergence(a, b, n) is None)
                &&& r.is_verified <==> (forall|i: int| 0 <= i < n ==> a[i] == b[i])
                &&& r.series_comparison matches Some(c) && {
                    &&& c.original_series@ == a
                    &&& c.verification_series@ == b
                    &&& c.match_count == matching_ticks(a, b, n)
                    &&& c.total_ticks == n
                    &&& c.all_match == r.is_verified
                }
            }),
    {
        let ghost a = original_series@;
        let ghost b = verification_series@;
        let original_final: u64 = if original_series.len() == 0 {
            0
        } else {
            original_series[original_series.len() - 1]
        };
        let verification_final: u64 = if verification_series.len() == 0 {
            0
        } else {
            verification_series[verification_series.len() - 1]
        };
        let shorter: usize = if original_series.len() <= verification_series.len() {
            original_series.len()
        } else {
            verification_series.len()
        };
        let n: usize = if (ticks as u128) <= (shorter as u128) { ticks as usize } else { shorter };
        let mut divergence: Option<u64> = None;
        let mut match_count: u64 = 0;
        let mut i: usize = 0;
        while i < n
            invariant
                a == original_series@,
                b == verification_series@,
                n == compared_len(a, b, ticks),
                n <= a.len(),
                n <= b.len(),
                0 <= i <= n,
                divergence == first_divergence(a, b, i as int),
                match_count == matching_ticks(a, b, i as int),
                match_count <= i,
            decreases n - i,
        {
            let x = original_series[i];
            let y = verification_series[i];
            if divergence.is_none() && x != y {
                divergence = Some(i as u64);
            }
            if x == y {
                match_count = match_count + 1;
            }
            i = i + 1;
        }
        proof {
            lemma_first_divergence(a, b, n as int);
        }
        let is_verified = divergence.is_none();
        let comparison = SeriesComparison {
            original_series: copy_series(original_series),
            verification_series: copy_series(verification_series),
            match_count,
            total_ticks: n as u64,
            all_match: divergence.is_none(),
        };
        ReproducibilityReport {
            seed,
            ticks,
            original_final_hash: original_final,
            verification_final_hash: verification_final,
            is_verified,
            series_comparison: Some(comparison),
            first_divergence_tick: divergence,
        }
    }
}

/// The character of a decimal digit.
pub open spec fn digit_char(d: nat) -> char {
    if d == 0 {
        '0'
    } else if d == 1 {
        '1'
    } else if d == 2 {
        '2'
    } else if d == 3 {
        '3'
    } else if d == 4 {
        '4'
    } else if d == 5 {
        '5'
    } else if d == 6 {
        '6'
    } else if d == 7 {
        '7'
    } else if d == 8 {
        '8'
    } else {
        '9'
    }
}

/// The decimal representation of `n`, without leading zeros.
pub open spec fn decimal(n: nat) -> Seq<char>
    decreases n,
{
    if n < 10 {
        seq![digit_char(n)]
    } else {
        decimal(n / 10).push(digit_char(n % 10))
    }
}

fn digit_str(d: u64) -> (s: &'static str)
    requires
        d < 10,
    ensures
        s@ == seq![digit_char(d as nat)],
{
    proof {
        reveal_strlit("0");
        reveal_strlit("1");
        reveal_strlit("2");
        reveal_strlit("3");
        reveal_strlit("4");
        reveal_strlit("5");
        reveal_strlit("6");
        reveal_strlit("7");
        reveal_strlit("8");
        reveal_strlit("9");
    }
    if d == 0 {
        "0"
    } else if d == 1 {
        "1"
    } else if d == 2 {
        "2"
    } else if d == 3 {
        "3"
    } else if d == 4 {
        "4"
    } else if d == 5 {
        "5"
    } else if d == 6 {
        "6"
    } else if d == 7 {
        "7"
    } else if d == 8 {
        "8"
    } else {
        "9"
    }
}

/// Appends the decimal representation of `n`.
fn push_decimal(s: &mut String, n: u64)
    ensures
        final(s)@ == old(s)@ + decimal(n as nat),
    decreases n,
{
    if n >= 10 {
        push_decimal(s, n / 10);
    }
    let d = digit_str(n % 10);
    s.append(d);
    proof {
        if n < 10 {
            assert(decimal(n as nat) == seq![digit_char(n as nat)]);
        } else {
            assert(decimal(n as nat) == decimal((n / 10) as nat).push(digit_char((n % 10) as nat)));
        }
        assert(final(s)@ =~= old(s)@ + decimal(n as nat));
    }
}

/// The one-line summary of a report.
pub open spec fn summary_text(r: ReproducibilityReport) -> Seq<char> {
    if r.is_verified {
        "Reproducible: seed="@ + decimal(r.seed as nat) + ", ticks="@ + decimal(r.ticks as nat)
            + ", verified=true"@
    } else {
        "NOT reproducible: seed="@ + decimal(r.seed as nat) + ", ticks="@ + decimal(r.ticks as nat)
            + ", diverged at tick "@ + match r.first_divergence_tick {
            Some(t) => "Some("@ + decimal(t as nat) + ")"@,
            None => "None"@,
        }
    }
}

impl ReproducibilityReport {
    /// A one-line summary: the seed and tick count, and either that the run
    /// reproduced or the tick where it diverged.
    pub fn summary(&self) -> (s: String)
        ensures
            s@ == summary_text(*self),
    {
        let mut s = String::new();
        if self.is_verified {
            s.append("Reproducible: seed=");
            push_decimal(&mut s, self.seed);
            s.append(", ticks=");
            push_decimal(&mut s, self.ticks);
            s.append(", verified=true");
        } else {
            s.append("NOT reproducible: seed=");
            push_decimal(&mut s, self.seed);
            s.append(", ticks=");
            push_decimal(&mut s, self.ticks);
            s.append(", diverged at tick ");
            match self.first_divergence_tick {
                Some(t) => {
                    s.append("Some(");
                    push_decimal(&mut s, t);
                    s.append(")");
                },
                None => {
                    s.append("None");
                },
            }
        }
        proof {
            assert(s@ =~= summary_text(*self));
        }
        s
    }
}

/// Re-runs `seed` for `ticks` through `revalidate` and compares the final
/// hash it gives with `original_hash`.
pub fn verify_reproducibility<F: Fn(u64, u64) -> u64>(seed: u64, ticks: u64, original_hash: u64, revalidate: F) -> (r:
    ReproducibilityReport)
    requires
        call_requires(revalidate, (seed, ticks)),
    ensures
        call_ensures(revalidate, (seed, ticks), r.verification_final_hash),
        r.seed == seed,
        r.ticks == ticks,
        r.original_final_hash == original_hash,
        r.is_verified == (original_hash == r.verification_final_hash),
        r.series_comparison is None,
        r.first_divergence_tick is None,
{
    let verification_hash = revalidate(seed, ticks);
    ReproducibilityReport::verify_single(original_hash, verification_hash, seed, ticks)
}

/// Re-runs `seed` for as many ticks as the original series has through
/// `revalidate`, and compares the two series.
pub fn verify_reproducibility_series<F: Fn(u64, u64) -> Vec<u64>>(seed: u64, original_series: &[u64], revalidate: F) -> (r:
    ReproducibilityReport)
    requires
        call_requires(revalidate, (seed, original_series@.len() as u64)),
    ensures
        r.seed == seed,
        r.ticks == original_series@.len() as u64,
        r.original_final_hash == final_hash(original_series@),
        r.series_comparison matches Some(c) && {
            &&& exists|v: Vec<u64>| #[trigger] call_ensures(revalidate, (seed, original_series@.len() as u64), v)
                && v@ == c.verification_series@
            &&& c.original_series@ == original_series@
            &&& r.verification_final_hash == final_hash(c.verification_series@)
            &&& r.first_divergence_tick == first_divergence(original_series@, c.verification_series@,
                compared_len(original_series@, c.verification_series@, original_series@.len() as u64))
            &&& r.is_verified == (r.first_divergence_tick is None)
            &&& c.all_match == r.is_verified
            &&& c.match_count == matching_ticks(original_series@, c.verification_series@,
                compared_len(original_series@, c.verification_series@, original_series@.len() as u64))
        },
{
    let n = original_series.len() as u64;
    let verification_series = revalidate(seed, n);
    let r = ReproducibilityReport::verify_series(original_series, verification_series.as_slice(), seed, n);
    proof {
        let c = r.series_comparison.unwrap();
        assert(call_ensures(revalidate, (seed, n), verification_series) && verification_series@ == c.verification_series@);
    }
    r
}

/// The result of one run of a batch.
#[derive(Debug, Clone, Copy, PartialEq, Eq, Structural)]
pub struct BatchRunResult {
    pub seed: u64,
    pub ticks: u64,
    pub final_state_hash: u64,
}

/// The results of a batch sweep, in the order they were added.
#[derive(Debug, Clone)]
pub struct BatchResults {
    pub base_seed: u64,
    pub batch_size: u64,
    pub ticks_per_run: u64,
    pub results: Vec<BatchRunResult>,
}

/// Every run of the batch ended in the same state hash.
pub open spec fn hashes_agree(s: Seq<BatchRunResult>) -> bool {
    forall|i: int| 0 <= i < s.len() ==> (#[trigger] s[i]).final_state_hash == s[0].final_state_hash
}

impl BatchResults {
    pub fn new(base_seed: u64, batch_size: u64, ticks_per_run: u64) -> (b: Self)
        ensures
            b.base_seed == base_seed,
            b.batch_size == batch_size,
            b.ticks_per_run == ticks_per_run,
            b.results@ == Seq::<BatchRunResult>::empty(),
    {
        BatchResults { base_seed, batch_size, ticks_per_run, results: Vec::new() }
    }

    /// Appends the result of one run.
    pub fn add_result(&mut self, result: BatchRunResult)
        ensures
            final(self).results@ == old(self).results@.push(result),
            final(self).base_seed == old(self).base_seed,
            final(self).batch_size == old(self).batch_size,
            final(self).ticks_per_run == old(self).ticks_per_run,
    {
        self.results.push(result);
    }

    /// Whether every run ended in the same state hash (true for no runs).
    pub fn all_hashes_match(&self) -> (b: bool)
        ensures
            b == hashes_agree(self.results@),
    {
        if self.results.len() == 0 {
            return true;
        }
        let first = self.results[0].final_state_hash;
        let mut i: usize = 0;
        while i < self.results.len()
            invariant
                0 < self.results@.len(),
                first == self.results@[0].final_state_hash,
                0 <= i <= self.results@.len(),
                forall|j: int| 0 <= j < i ==> (#[trigger] self.results@[j]).final_state_hash == first,
            decreases self.results@.len() - i,
        {
            if self.results[i].final_state_hash != first {
                return false;
            }
            i = i + 1;
        }
        true
    }
}

/// Adding a run whose hash differs from the first run's breaks agreement,
/// and adding one with the same hash keeps it.
pub proof fn lemma_add_result_agreement(s: Seq<BatchRunResult>, r: BatchRunResult)
    requires
        s.len() > 0,
    ensures
        hashes_agree(s.push(r)) <==> (hashes_agree(s) && r.final_state_hash == s[0].final_state_hash),
{
    let t = s.push(r);
    assert(t[0] == s[0]);
    if hashes_agree(t) {
        assert(t[s.len() as int] == r);
        assert forall|i: int| 0 <= i < s.len() implies (#[trigger] s[i]).final_state_hash == s[0].final_state_hash by {
            assert(t[i] == s[i]);
        }
    }
    if hashes_agree(s) && r.final_state_hash == s[0].final_state_hash {
        assert forall|i: int| 0 <= i < t.len() implies (#[trigger] t[i]).final_state_hash == t[0].final_state_hash by {
            if i < s.len() {
                assert(t[i] == s[i]);
            }
        }
    }
}

} // verus!
