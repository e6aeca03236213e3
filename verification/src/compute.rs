use vstd::prelude::*;

verus! {

pub struct ComputeModule;

impl ComputeModule {
    pub fn name() -> (n: &'static str)
        ensures
            n@ == "polis-compute"@,
    {
        "polis-compute"
    }
}

/// Which backend runs the kernels.
#[derive(Debug, Clone, Copy, PartialEq, Eq, Structural)]
pub enum ComputeBackend {
    /// The authoritative deterministic path.
    CpuReference,
    /// The accelerated path, held to the reference results.
    GpuAccelerated,
}

/// Compute configuration.
#[derive(Debug, Clone, Copy, PartialEq, Eq, Structural)]
pub struct ComputeConfig {
    pub backend: ComputeBackend,
    pub deterministic_mode: bool,
    /// Largest batch size eligible for accelerated kernels.
    pub gpu_batch_threshold: usize,
    /// Allowed relative error against the reference, in parts per million.
    pub tolerance_ppm: u32,
}

impl Default for ComputeConfig {
    /// The reference backend, deterministic, threshold 4096, tolerance 10 ppm.
    fn default() -> (c: Self)
        ensures
            c == (ComputeConfig {
                backend: ComputeBackend::CpuReference,
                deterministic_mode: true,
                gpu_batch_threshold: 4_096,
                tolerance_ppm: 10,
            }),
    {
        ComputeConfig {
            backend: ComputeBackend::CpuReference,
            deterministic_mode: true,
            gpu_batch_threshold: 4_096,
            tolerance_ppm: 10,
        }
    }
}

/// The compute facade used by the simulation systems.
#[derive(Debug, Clone, Copy, PartialEq, Eq, Structural)]
pub struct ComputeEngine {
    pub config: ComputeConfig,
}

/// Sum of the values, wrapping around at 2^64, taken from the front.
pub open spec fn wrapping_sum(s: Seq<u64>) -> u64
    decreases s.len(),
{
    if s.len() == 0 { 0 } else { wrapping_sum(s.drop_last()).wrapping_add(s.last()) }
}

/// Reference reduction: the wrapping sum of the values, in order.
pub fn reduce_sum_u64_cpu(values: &[u64]) -> (sum: u64)
    ensures
        sum == wrapping_sum(values@),
{
    let mut acc: u64 = 0;
    let mut i: usize = 0;
    while i < values.len()
        invariant
            0 <= i <= values@.len(),
            acc == wrapping_sum(values@.take(i as int)),
        decreases values@.len() - i,
    {
        proof {
            assert(values@.take(i + 1).drop_last() =~= values@.take(i as int));
        }
        acc = acc.wrapping_add(values[i]);
        i = i + 1;
    }
    proof {
        assert(values@.take(values@.len() as int) =~= values@);
    }
    acc
}

impl ComputeEngine {
    pub fn new(config: ComputeConfig) -> (e: Self)
        ensures
            e.config == config,
    {
        ComputeEngine { config }
    }

    /// The wrapping sum of the values, tagged with the configured backend;
    /// both backends give the reference sum.
    pub fn reduce_sum_u64(&self, values: &[u64]) -> (r: (u64, ComputeBackend))
        ensures
            r.0 == wrapping_sum(values@),
            r.1 == self.config.backend,
    {
        let sum = reduce_sum_u64_cpu(values);
        let backend = match self.config.backend {
            ComputeBackend::CpuReference => ComputeBackend::CpuReference,
            ComputeBackend::GpuAccelerated => ComputeBackend::GpuAccelerated,
        };
        (sum, backend)
    }
}

} // verus!
