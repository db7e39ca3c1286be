//! Analysis of a decentralized-exchange market snapshot.
//!
//! A snapshot of tokens and liquidity pools is handed to a set of engines,
//! each of which reads it and gives a report: a summary, the pool with the
//! largest reserves, or a ranking of the pools by a score. Scores are exact
//! fixed-point numbers, so every report is a function of the snapshot that
//! the contracts state in full.

pub mod document;
pub mod dual_executor;
pub mod ranking;
pub mod score;
pub mod scoring;
pub mod snapshot;

pub use document::{
    find_member, parse_snapshot, Document, Field, FieldPath, MalformedSnapshot, Member, Section,
    Violation,
};
pub use dual_executor::{
    top_pool, AIScorerEngine, DualExecutor, Engine, EngineError, EngineReport,
    ScoringBackendLoadError, ScoringEngine, SummaryEngine, TopPool, TopPoolEngine,
};
pub use ranking::{rank_outcomes, Ranking, ScoredPool, SkippedPool};
pub use score::{Score, SCORE_UNITS_PER_ONE};
pub use scoring::{
    heuristic_score, pool_to_features, score_pools, HeuristicBackend, ScoringBackend,
    ScoringError, FEATURE_COUNT, FEE_SCALE, RESERVE_SCALE,
};
pub use snapshot::{DexData, Pool, Token};
