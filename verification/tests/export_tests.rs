use polis::export::{BatchResults, BatchRunResult, ExportModule, ReproducibilityReport, Snapshot, SnapshotData};
use polis::export::{verify_reproducibility, verify_reproducibility_series};
use polis::sim_core::SimulationSeed;

#[test]
fn reproducibility_report_detects_match() {
    let report = ReproducibilityReport::verify_single(0x1234, 0x1234, 42, 100);
    assert!(report.is_verified);
}

#[test]
fn reproducibility_report_detects_mismatch() {
    let report = ReproducibilityReport::verify_single(0x1234, 0x5678, 42, 100);
    assert!(!report.is_verified);
}

#[test]
fn reproducibility_report_series_match() {
    let original = vec![1, 2, 3, 4, 5];
    let verification = vec![1, 2, 3, 4, 5];
    let report = ReproducibilityReport::verify_series(&original, &verification, 42, 5);
    assert!(report.is_verified);
    assert!(report.first_divergence_tick.is_none());
    assert_eq!(report.series_comparison.as_ref().unwrap().all_match, true);
}

#[test]
fn reproducibility_report_series_detects_divergence() {
    let original = vec![1, 2, 3, 4, 5];
    let verification = vec![1, 2, 99, 4, 5];
    let report = ReproducibilityReport::verify_series(&original, &verification, 42, 5);
    assert!(!report.is_verified);
    assert_eq!(report.first_divergence_tick, Some(2));
}

#[test]
fn batch_results_all_hashes_match() {
    let mut results = BatchResults::new(100, 3, 1000);
    results.add_result(BatchRunResult { seed: 100, ticks: 1000, final_state_hash: 0xABCD });
    results.add_result(BatchRunResult { seed: 101, ticks: 1000, final_state_hash: 0xABCD });
    results.add_result(BatchRunResult { seed: 102, ticks: 1000, final_state_hash: 0xABCD });

    assert!(results.all_hashes_match());
}

#[test]
fn batch_results_detects_hash_mismatch() {
    let mut results = BatchResults::new(100, 2, 1000);
    results.add_result(BatchRunResult { seed: 100, ticks: 1000, final_state_hash: 0xABCD });
    results.add_result(BatchRunResult { seed: 101, ticks: 1000, final_state_hash: 0x9876 });

    assert!(!results.all_hashes_match());
}

#[test]
fn empty_batch_matches() {
    let results = BatchResults::new(1, 0, 10);
    assert!(results.all_hashes_match());
}

#[test]
fn series_comparison_counts_matches_over_the_shorter_series() {
    let original = vec![1, 2, 3, 4, 5];
    let verification = vec![1, 9, 3];
    let report = ReproducibilityReport::verify_series(&original, &verification, 7, 10);
    let c = report.series_comparison.as_ref().unwrap();
    assert_eq!(c.total_ticks, 3);
    assert_eq!(c.match_count, 2);
    assert_eq!(report.first_divergence_tick, Some(1));
    assert_eq!(report.original_final_hash, 5);
    assert_eq!(report.verification_final_hash, 3);
    let empty: Vec<u64> = Vec::new();
    let r2 = ReproducibilityReport::verify_series(&empty, &empty, 7, 10);
    assert!(r2.is_verified);
    assert_eq!(r2.original_final_hash, 0);
}

#[test]
fn summary_lines() {
    let ok = ReproducibilityReport::verify_single(1, 1, 42, 100);
    assert_eq!(ok.summary(), "Reproducible: seed=42, ticks=100, verified=true");
    let bad = ReproducibilityReport::verify_series(&[1, 2, 3], &[1, 2, 4], 7, 3);
    assert_eq!(bad.summary(), "NOT reproducible: seed=7, ticks=3, diverged at tick Some(2)");
    let single = ReproducibilityReport::verify_single(1, 2, 0, 18446744073709551615);
    assert_eq!(single.summary(), "NOT reproducible: seed=0, ticks=18446744073709551615, diverged at tick None");
}

#[test]
fn reverification_uses_the_revalidating_run() {
    let report = verify_reproducibility(5, 20, 0xAB, |seed, ticks| seed * 1000 + ticks);
    assert_eq!(report.verification_final_hash, 5020);
    assert!(!report.is_verified);
    let same = verify_reproducibility(5, 20, 5020, |seed, ticks| seed * 1000 + ticks);
    assert!(same.is_verified);
    let original = vec![10, 11, 12];
    let series = verify_reproducibility_series(3, &original, |seed, ticks| (0..ticks).map(|t| seed + 7 + t).collect());
    assert!(series.is_verified);
    assert_eq!(series.ticks, 3);
}

#[test]
fn snapshot_header() {
    let s = Snapshot::new(100, SimulationSeed::new(42), 0xDEADBEEF, 64, 0xCAFEBABE);
    assert_eq!(s.version, "0.1.0");
    assert_eq!(s.tick, 100);
    assert_eq!(s.seed, 42);
    assert_eq!(s.state_hash, 0xDEADBEEF);
    assert_eq!(s.data, SnapshotData::Placeholder { partition_count: 64, world_hash: 0xCAFEBABE });
    assert_eq!(ExportModule::name(), "polis-export");
}
