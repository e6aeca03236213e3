# polis

The verified core of POLIS, a deterministic civilization simulator: seeded
random streams, individual agents and their corpses, social ties and
cross-species contact, domestic and wild animals, collective actors with
their decisions, merges and splits, knowledge and discovery, the agent
phases of a tick, run reproducibility checks, and the small helpers of the
compute and world layers.

Layout:

- `src/` — the library, written in Verus; its functions carry contracts
  that Verus proves, except three small trusted wrappers in `sim_core.rs`
  around the system clock (`SystemTime::now`, `duration_since`, `as_secs`),
  which promise nothing of the time they return.
  - `sim_core.rs` — seeds, the SplitMix64 generator, run manifests.
  - `agents.rs` — individuals, corpses, the agent population and its digest.
  - `social.rs` — social ties, the social network, cross-species state.
  - `animals.rs` — species archetypes, animals and animal populations.
  - `collective.rs` — collective actors, their member tables and pooled
    resources, decisions, lifecycle, and the registry with merge and split.
  - `knowledge.rs` — the knowledge catalog, discovery stages and progress,
    and what each agent knows.
  - `systems.rs` — the phase registry, phase hashes, and the agent
    perception, decision and commit phases over partition stocks.
  - `export.rs` — snapshots, reproducibility reports, batch results.
  - `metrics.rs` — the integer figures of a tick's metrics: discovery
    counts and partition totals (social tension and zoonotic pressure sit
    with the population in `agents.rs`).
  - `world.rs`, `compute.rs`, `inference.rs` — resource kinds, the
    reduction kernel, risk labels.
- `tests/` — tests run against the compiled library.
- `app/` — the command-line program: argument handling, scenario loading,
  JSON export and serializable copies of the library's export types.
