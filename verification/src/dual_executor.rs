//! Engines and the executor that runs them.
//!
//! An engine reads a snapshot and gives a report or an error. The executor
//! holds engines in the order in which they were added and runs each once on
//! the same snapshot; what one engine does has no effect on the others.

use vstd::prelude::*;
use std::path::PathBuf;
use crate::ranking::{rank_outcomes, Ranking};
use crate::score::Score;
use crate::scoring::{
    heuristic_outcomes, heuristic_score, heuristic_units, score_pools, scored_by, HeuristicBackend,
    ScoringBackend, ScoringError,
};
use crate::snapshot::{DexData, Pool};

verus! {

/// `std::path::PathBuf`, which engines carry and never look into.
#[verifier::external_type_specification]
#[verifier::external_body]
pub struct ExPathBuf(std::path::PathBuf);

/// The pool with the largest reserves.
#[derive(Debug, Clone, Copy, PartialEq, Eq)]
pub struct TopPool {
    /// Position of the pool in the snapshot.
    pub index: usize,
    /// Both of its reserves together.
    pub liquidity: u128,
}

/// Why a scoring backend could not be had.
#[derive(Debug, Clone, Copy, PartialEq, Eq)]
pub enum ScoringBackendLoadError {
    /// There is no model where the path points.
    NotFound,
    /// What is there is no usable model.
    Corrupt,
}

/// What an engine found.
#[derive(Debug, Clone, PartialEq, Eq)]
pub enum EngineReport {
    /// How many tokens and pools the snapshot holds.
    Summary { tokens: usize, pools: usize },
    /// The pool with the largest reserves; `None` for a snapshot without pools.
    TopPool(Option<TopPool>),
    /// The pools by score.
    Ranking(Ranking),
    /// A report in words.
    Text(String),
}

/// Why an engine gave no report.
#[derive(Debug, Clone, PartialEq, Eq)]
pub enum EngineError {
    /// The engine scores with a backend that could not be loaded.
    BackendLoad(ScoringBackendLoadError),
    /// The engine failed; the text says how.
    Failed(String),
}

/// An analysis of a snapshot.
pub trait Engine {
    /// Which outcomes the engine may give for a snapshot. An engine that says
    /// nothing here promises nothing.
    open spec fn may_report(&self, data: DexData, outcome: Result<EngineReport, EngineError>) -> bool {
        true
    }

    /// Reads the snapshot and reports. The snapshot is not changed.
    fn execute(&self, data: &DexData) -> (outcome: Result<EngineReport, EngineError>)
        ensures
            self.may_report(*data, outcome),
    ;
}

/// The summary of a snapshot: how many tokens and how many pools it lists.
pub open spec fn summary_of(data: DexData) -> EngineReport {
    EngineReport::Summary { tokens: data.tokens@.len() as usize, pools: data.pools@.len() as usize }
}

/// Counts the tokens and the pools.
pub struct SummaryEngine;

impl Engine for SummaryEngine {
    open spec fn may_report(&self, data: DexData, outcome: Result<EngineReport, EngineError>) -> bool {
        outcome == Ok::<EngineReport, EngineError>(summary_of(data))
    }

    /// Never fails.
    fn execute(&self, data: &DexData) -> (outcome: Result<EngineReport, EngineError>)
        ensures
            outcome == Ok::<EngineReport, EngineError>(summary_of(*data)),
    {
        Ok(EngineReport::Summary { tokens: data.tokens.len(), pools: data.pools.len() })
    }
}

/// Whether the pool at `index` has the largest reserves of all, and is the
/// first of those that have.
pub open spec fn is_top_pool(pools: Seq<Pool>, index: int) -> bool {
    &&& 0 <= index < pools.len()
    &&& forall|j: int|
        0 <= j < pools.len() ==> (#[trigger] pools[j]).liquidity() <= pools[index].liquidity()
    &&& forall|j: int| 0 <= j < index ==> (#[trigger] pools[j]).liquidity() < pools[index].liquidity()
}

/// Whether `top` is what there is to say of the largest pool of `pools`:
/// nothing where there is no pool, else the top pool and its reserves.
pub open spec fn is_top_pool_report(pools: Seq<Pool>, top: Option<TopPool>) -> bool {
    match top {
        None => pools.len() == 0,
        Some(found) => is_top_pool(pools, found.index as int) && found.liquidity
            == pools[found.index as int].liquidity(),
    }
}

/// The pool with the largest reserves, the first of them where several have
/// the same; `None` where there is no pool.
pub fn top_pool(pools: &Vec<Pool>) -> (top: Option<TopPool>)
    ensures
        is_top_pool_report(pools@, top),
{
    if pools.len() == 0 {
        return None;
    }
    let mut best = TopPool { index: 0, liquidity: pools[0].total_reserve() };
    let mut index: usize = 1;
    while index < pools.len()
        invariant
            1 <= index <= pools@.len(),
            is_top_pool(pools@.subrange(0, index as int), best.index as int),
            best.liquidity == pools@[best.index as int].liquidity(),
        decreases pools@.len() - index,
    {
        let liquidity: u128 = pools[index].total_reserve();
        let ghost seen = pools@.subrange(0, index as int);
        let ghost next = pools@.subrange(0, index + 1);
        assert forall|j: int| 0 <= j < index implies #[trigger] next[j] == seen[j] by {}
        if liquidity > best.liquidity {
            best = TopPool { index, liquidity };
        }
        index += 1;
    }
    assert(pools@.subrange(0, index as int) == pools@);
    Some(best)
}

/// Finds the pool with the largest reserves.
pub struct TopPoolEngine;

impl Engine for TopPoolEngine {
    open spec fn may_report(&self, data: DexData, outcome: Result<EngineReport, EngineError>) -> bool {
        outcome matches Ok(EngineReport::TopPool(top)) && is_top_pool_report(data.pools@, top)
    }

    /// Never fails; a snapshot without pools has `TopPool(None)` for its
    /// report.
    fn execute(&self, data: &DexData) -> (outcome: Result<EngineReport, EngineError>)
        ensures
            outcome matches Ok(EngineReport::TopPool(top)) && is_top_pool_report(data.pools@, top),
    {
        Ok(EngineReport::TopPool(top_pool(&data.pools)))
    }
}

/// Ranks the pools by the heuristic score. The engine carries the path of a
/// model file for its caller; it does not open the file.
pub struct AIScorerEngine {
    model_path: PathBuf,
}

impl AIScorerEngine {
    /// The path that the engine carries.
    pub closed spec fn path(&self) -> PathBuf {
        self.model_path
    }

    /// An engine that carries `model_path`.
    pub fn new(model_path: PathBuf) -> (engine: Self)
        ensures
            engine.path() == model_path,
    {
        AIScorerEngine { model_path }
    }

    /// The path that the engine was made with.
    pub fn model_path(&self) -> (path: &PathBuf)
        ensures
            *path == self.path(),
    {
        &self.model_path
    }

    /// The heuristic score of one pool.
    pub fn score_pool(&self, pool: &Pool) -> (score: Score)
        ensures
            score == Score::of(heuristic_units(pool.reserve0, pool.reserve1, pool.fee)),
            score.units() == heuristic_units(pool.reserve0, pool.reserve1, pool.fee),
    {
        heuristic_score(pool.reserve0, pool.reserve1, pool.fee)
    }
}

impl Engine for AIScorerEngine {
    open spec fn may_report(&self, data: DexData, outcome: Result<EngineReport, EngineError>) -> bool {
        outcome matches Ok(EngineReport::Ranking(ranking)) && ranking.is_ranking_of(
            heuristic_outcomes(data.pools@),
        )
    }

    /// Never fails, and skips no pool; a snapshot without pools has an
    /// empty ranking for its report.
    fn execute(&self, data: &DexData) -> (outcome: Result<EngineReport, EngineError>)
        ensures
            outcome matches Ok(EngineReport::Ranking(ranking)) && ranking.is_ranking_of(
                heuristic_outcomes(data.pools@),
            ),
    {
        let outcomes = score_pools(data, &HeuristicBackend);
        assert(outcomes@ == heuristic_outcomes(data.pools@));
        Ok(EngineReport::Ranking(rank_outcomes(outcomes)))
    }
}

/// Ranks the pools by the scores of a backend, where the backend could be
/// loaded.
pub struct ScoringEngine<B: ScoringBackend> {
    /// The backend, or why there is none.
    pub backend: Result<B, ScoringBackendLoadError>,
}

impl<B: ScoringBackend> ScoringEngine<B> {
    /// An engine that scores with `backend`.
    pub fn new(backend: B) -> (engine: Self)
        ensures
            engine.backend == Ok::<B, ScoringBackendLoadError>(backend),
    {
        ScoringEngine { backend: Ok(backend) }
    }

    /// An engine whose backend could not be loaded. It reports that, each
    /// time it is run.
    pub fn unavailable(error: ScoringBackendLoadError) -> (engine: Self)
        ensures
            engine.backend == Err::<B, ScoringBackendLoadError>(error),
    {
        ScoringEngine { backend: Err(error) }
    }
}

/// Whether `ranking` is a ranking of `pools` by scores that `backend` may
/// give them.
pub open spec fn is_ranking_by<B: ScoringBackend>(
    backend: B,
    pools: Seq<Pool>,
    ranking: Ranking,
) -> bool {
    exists|outcomes: Seq<Result<Score, ScoringError>>| #[trigger]
        scored_by(backend, pools, outcomes) && ranking.is_ranking_of(outcomes)
}

/// What an engine gives for `pools` that scores with `backend` where there
/// is one: a ranking by its scores. Where there is none, the engine fails
/// with the reason why there is none.
pub open spec fn is_scoring_outcome<B: ScoringBackend>(
    backend: Result<B, ScoringBackendLoadError>,
    pools: Seq<Pool>,
    outcome: Result<EngineReport, EngineError>,
) -> bool {
    match backend {
        Ok(loaded) => outcome matches Ok(EngineReport::Ranking(ranking)) && is_ranking_by(
            loaded,
            pools,
            ranking,
        ),
        Err(error) => outcome == Err::<EngineReport, EngineError>(EngineError::BackendLoad(error)),
    }
}

impl<B: ScoringBackend> Engine for ScoringEngine<B> {
    open spec fn may_report(&self, data: DexData, outcome: Result<EngineReport, EngineError>) -> bool {
        is_scoring_outcome(self.backend, data.pools@, outcome)
    }

    /// Fails where there is no backend, and only there. A pool on which the
    /// backend fails is skipped, and the others are ranked all the same.
    fn execute(&self, data: &DexData) -> (outcome: Result<EngineReport, EngineError>)
        ensures
            is_scoring_outcome(self.backend, data.pools@, outcome),
    {
        match &self.backend {
            Ok(backend) => {
                let outcomes = score_pools(data, backend);
                let ghost scored = outcomes@;
                let ranking = rank_outcomes(outcomes);
                assert(scored_by(*backend, data.pools@, scored) && ranking.is_ranking_of(scored));
                Ok(EngineReport::Ranking(ranking))
            },
            Err(error) => Err(EngineError::BackendLoad(*error)),
        }
    }
}

/// An engine that an executor holds.
struct Registered<E> {
    engine: E,
}

/// Runs engines over a snapshot, in the order in which they were added.
pub struct DualExecutor {
    engines: Vec<Registered<Box<dyn Engine>>>,
}

impl DualExecutor {
    /// How many engines the executor holds.
    pub closed spec fn len(&self) -> nat {
        self.engines@.len()
    }

    /// Whether the engine at `position` may give `outcome` for `data`.
    /// Positions count from 0, in the order in which the engines were added.
    pub closed spec fn may_report(
        &self,
        position: int,
        data: DexData,
        outcome: Result<EngineReport, EngineError>,
    ) -> bool {
        self.engines@[position].engine.may_report(data, outcome)
    }

    /// An executor without engines.
    pub fn new() -> (executor: Self)
        ensures
            executor.len() == 0,
    {
        DualExecutor { engines: Vec::new() }
    }

    /// Adds an engine behind those that are there. An engine may be added
    /// more than once; the engines before it stay as they are.
    pub fn add_engine(&mut self, engine: Box<dyn Engine>)
        ensures
            final(self).len() == old(self).len() + 1,
            forall|data: DexData, outcome: Result<EngineReport, EngineError>| #[trigger]
                final(self).may_report(old(self).len() as int, data, outcome) == engine.may_report(
                    data,
                    outcome,
                ),
            forall|position: int, data: DexData, outcome: Result<EngineReport, EngineError>|
                0 <= position < old(self).len() ==> #[trigger] final(self).may_report(
                    position,
                    data,
                    outcome,
                ) == old(self).may_report(position, data, outcome),
    {
        let added = Registered { engine };
        self.engines.push(added);
    }

    /// How many engines were added.
    pub fn engine_count(&self) -> (count: usize)
        ensures
            count == self.len(),
    {
        self.engines.len()
    }

    /// Runs every engine once on `data`, in the order in which they were
    /// added, and gives the outcome of each in that order. An engine that
    /// fails has its error in its place; the engines behind it run as they
    /// would have.
    pub fn run(&self, data: &DexData) -> (outcomes: Vec<Result<EngineReport, EngineError>>)
        ensures
            outcomes@.len() == self.len(),
            forall|position: int|
                0 <= position < outcomes@.len() ==> self.may_report(
                    position,
                    *data,
                    #[trigger] outcomes@[position],
                ),
    {
        let mut outcomes: Vec<Result<EngineReport, EngineError>> = Vec::new();
        let mut index: usize = 0;
        while index < self.engines.len()
            invariant
                index <= self.engines@.len(),
                outcomes@.len() == index,
                forall|position: int|
                    0 <= position < index ==> self.may_report(
                        position,
                        *data,
                        #[trigger] outcomes@[position],
                    ),
            decreases self.engines@.len() - index,
        {
            let outcome = self.engines[index].engine.execute(data);
            outcomes.push(outcome);
            index += 1;
        }
        outcomes
    }
}

/// A list of pools has one top pool at most.
pub proof fn lemma_top_pool_is_unique(pools: Seq<Pool>, first: int, second: int)
    requires
        is_top_pool(pools, first),
        is_top_pool(pools, second),
    ensures
        first == second,
{
    if first < second {
        assert(pools[first].liquidity() < pools[second].liquidity());
    } else if second < first {
        assert(pools[second].liquidity() < pools[first].liquidity());
    }
}

/// What a scoring engine reports is sorted by score, highest first, and
/// pools with the same score stand in snapshot order, whatever the backend.
pub proof fn lemma_scoring_engine_ranks_in_order<B: ScoringBackend>(
    engine: ScoringEngine<B>,
    data: DexData,
    ranking: Ranking,
    earlier: int,
    later: int,
)
    requires
        engine.may_report(data, Ok(EngineReport::Ranking(ranking))),
        0 <= earlier < later < ranking.ranked@.len(),
    ensures
        ranking.ranked@[earlier].score.units() >= ranking.ranked@[later].score.units(),
        ranking.ranked@[earlier].score == ranking.ranked@[later].score
            ==> ranking.ranked@[earlier].index < ranking.ranked@[later].index,
{
    let outcomes = choose|outcomes: Seq<Result<Score, ScoringError>>| #[trigger]
        scored_by(engine.backend->Ok_0, data.pools@, outcomes) && ranking.is_ranking_of(outcomes);
    crate::ranking::lemma_ranking_is_sorted_and_stable(ranking, outcomes, earlier, later);
}

/// A scoring engine leaves no pool out: each pool of the snapshot is ranked
/// or skipped.
pub proof fn lemma_scoring_engine_accounts_for_every_pool<B: ScoringBackend>(
    engine: ScoringEngine<B>,
    data: DexData,
    ranking: Ranking,
    pool: int,
)
    requires
        engine.may_report(data, Ok(EngineReport::Ranking(ranking))),
        0 <= pool < data.pools@.len(),
    ensures
        (exists|k: int| 0 <= k < ranking.ranked@.len() && (#[trigger] ranking.ranked@[k]).index == pool)
            || (exists|k: int|
            0 <= k < ranking.skipped@.len() && (#[trigger] ranking.skipped@[k]).index == pool),
{
    let outcomes = choose|outcomes: Seq<Result<Score, ScoringError>>| #[trigger]
        scored_by(engine.backend->Ok_0, data.pools@, outcomes) && ranking.is_ranking_of(outcomes);
    crate::ranking::lemma_ranking_accounts_for_every_pool(ranking, outcomes, pool);
}

} // verus!
